//! Conservation of the total state under the periodic boundary.
//!
//! The conservative update changes each cell by the difference of its two
//! interface fluxes. Under the periodic boundary each cell's left interface
//! flux equals its left neighbour's right interface flux (wrapping around),
//! so the contributions telescope and the sum of the state is exactly
//! preserved. `lemma_conservation` proves this for any flux pair with the
//! wrap property; the per-scheme lemmas establish the wrap property itself.

use vstd::prelude::*;

use crate::base::{ext_seq, vals, Boundary, Equation, Simluation};
use crate::rational::{
    lemma_mul4, lemma_rv_add_congr, lemma_rv_eq_trans, lemma_rv_mul_congr,
    lemma_rv_ops_wf, lemma_rv_sub_congr, rv_add, rv_div, rv_eq, rv_int, rv_lt, rv_mul, rv_neg,
    rv_sub, rv_wf, Rv,
};
use crate::schemes::{
    bw_dn_val, bw_up_val, fext, lam_of, lw_arg, new_state_at, sp_v, uext, vneg_at,
    vpos_at, BeamWarming, LaxFriedrichs, LaxWendroff, Scheme, Upwind,
};

verus! {

/// The sum of a sequence of rationals.
pub open spec fn rv_sum(s: Seq<Rv>) -> Rv
    decreases s.len(),
{
    if s.len() == 0 {
        rv_int(0)
    } else {
        rv_add(rv_sum(s.drop_last()), s.last())
    }
}

pub open spec fn all_rv_wf(s: Seq<Rv>) -> bool {
    forall|i: int| 0 <= i < s.len() ==> rv_wf(#[trigger] s[i])
}

pub proof fn lemma_sum_wf(s: Seq<Rv>)
    requires
        all_rv_wf(s),
    ensures
        rv_wf(rv_sum(s)),
    decreases s.len(),
{
    if s.len() == 0 {
    } else {
        assert(all_rv_wf(s.drop_last()));
        lemma_sum_wf(s.drop_last());
        lemma_rv_ops_wf(rv_sum(s.drop_last()), s.last());
    }
}

proof fn lemma_sum_take_succ(s: Seq<Rv>, k: int)
    requires
        0 <= k < s.len(),
    ensures
        rv_sum(s.take(k + 1)) == rv_add(rv_sum(s.take(k)), s[k]),
{
    assert(s.take(k + 1).drop_last() =~= s.take(k));
    assert(s.take(k + 1).last() == s[k]);
}

proof fn lemma_neg_mul(x: int, y: int)
    ensures
        (-x) * y == -(x * y),
{
    assert((-x) * y == -(x * y)) by (nonlinear_arith);
}

/// Subtraction is addition of the negation, on the nose.
proof fn lemma_sub_is_add_neg(a: Rv, p: Rv)
    ensures
        rv_sub(a, p) == rv_add(a, rv_neg(p)),
{
    lemma_neg_mul(p.n, a.d);
}

/// Addition of rationals is associative on the nose.
proof fn lemma_add_assoc(a: Rv, b: Rv, c: Rv)
    ensures
        rv_add(rv_add(a, b), c) == rv_add(a, rv_add(b, c)),
{
    assert((a.n * b.d + b.n * a.d) * c.d == (a.n * b.d) * c.d + (b.n * a.d) * c.d)
        by (nonlinear_arith);
    assert((a.n * b.d) * c.d == a.n * (b.d * c.d)) by (nonlinear_arith);
    assert((b.n * a.d) * c.d == (b.n * c.d) * a.d) by (nonlinear_arith);
    assert(c.n * (a.d * b.d) == (c.n * b.d) * a.d) by (nonlinear_arith);
    assert((b.n * c.d + c.n * b.d) * a.d == (b.n * c.d) * a.d + (c.n * b.d) * a.d)
        by (nonlinear_arith);
    assert((a.d * b.d) * c.d == a.d * (b.d * c.d)) by (nonlinear_arith);
}

/// Rearranging a sum of four rationals, on the nose.
proof fn lemma_add_perm(w: Rv, x: Rv, y: Rv, z: Rv)
    ensures
        rv_add(rv_add(w, x), rv_add(y, z)) == rv_add(rv_add(w, y), rv_add(x, z)),
{
    lemma_add_assoc(w, x, rv_add(y, z));
    lemma_add_assoc(x, y, z);
    assert(rv_add(x, y) == rv_add(y, x));
    lemma_add_assoc(y, x, z);
    lemma_add_assoc(w, y, rv_add(x, z));
}

/// `(a - p) + (b - q) == (a + b) - (p + q)`, on the nose.
proof fn lemma_shuffle(a: Rv, p: Rv, b: Rv, q: Rv)
    ensures
        rv_add(rv_sub(a, p), rv_sub(b, q)) == rv_sub(rv_add(a, b), rv_add(p, q)),
{
    lemma_sub_is_add_neg(a, p);
    lemma_sub_is_add_neg(b, q);
    lemma_add_perm(a, rv_neg(p), b, rv_neg(q));
    lemma_neg_mul(p.n, q.d);
    lemma_neg_mul(q.n, p.d);
    assert(rv_add(rv_neg(p), rv_neg(q)) == rv_neg(rv_add(p, q)));
    lemma_sub_is_add_neg(rv_add(a, b), rv_add(p, q));
}

/// Multiplication distributes over a sum of rationals.
proof fn lemma_factor(l: Rv, p: Rv, q: Rv)
    requires
        rv_wf(l),
        rv_wf(p),
        rv_wf(q),
    ensures
        rv_eq(rv_add(rv_mul(l, p), rv_mul(l, q)), rv_mul(l, rv_add(p, q))),
{
    lemma_mul4(l.n, p.n, l.d, q.d);
    lemma_mul4(l.n, q.n, l.d, p.d);
    let s = p.n * q.d + q.n * p.d;
    assert((l.n * l.d) * (p.n * q.d) + (l.n * l.d) * (q.n * p.d) == (l.n * l.d) * s)
        by (nonlinear_arith)
        requires s == p.n * q.d + q.n * p.d;
    assert(((l.n * l.d) * s) * (l.d * (p.d * q.d)) == (l.n * s) * ((l.d * p.d) * (l.d * q.d)))
        by (nonlinear_arith);
}

/// When `m` equals `x` in value, `(x - h) + (y - m)` equals `y - h`.
proof fn lemma_cancel(x: Rv, h: Rv, y: Rv, m: Rv)
    requires
        rv_wf(x),
        rv_wf(h),
        rv_wf(y),
        rv_wf(m),
        rv_eq(m, x),
    ensures
        rv_eq(rv_add(rv_sub(x, h), rv_sub(y, m)), rv_sub(y, h)),
{
    lemma_sub_is_add_neg(x, h);
    lemma_sub_is_add_neg(y, m);
    lemma_add_perm(x, rv_neg(h), y, rv_neg(m));
    lemma_add_perm(x, rv_neg(m), y, rv_neg(h));
    assert(rv_add(rv_neg(h), rv_neg(m)) == rv_add(rv_neg(m), rv_neg(h)));
    lemma_sub_is_add_neg(x, m);
    lemma_sub_is_add_neg(y, h);
    assert(rv_add(rv_add(x, rv_neg(m)), rv_add(y, rv_neg(h))) == rv_add(
        rv_sub(x, m),
        rv_sub(y, h),
    ));
    let z = rv_sub(x, m);
    let w = rv_sub(y, h);
    assert(z.n == 0);
    assert((z.n * w.d + w.n * z.d) * w.d == w.n * (z.d * w.d)) by (nonlinear_arith)
        requires z.n == 0;
}

proof fn lemma_cons_prefix(u: Seq<Rv>, hm: Seq<Rv>, hp: Seq<Rv>, lam: Rv, ns: Seq<Rv>, k: int)
    requires
        u.len() == ns.len(),
        hm.len() == ns.len(),
        hp.len() == ns.len(),
        all_rv_wf(u),
        all_rv_wf(hm),
        all_rv_wf(hp),
        all_rv_wf(ns),
        rv_wf(lam),
        forall|j: int|
            0 <= j < ns.len() ==> #[trigger] ns[j] == rv_sub(
                u[j],
                rv_mul(lam, rv_sub(hp[j], hm[j])),
            ),
        forall|j: int| 1 <= j < ns.len() ==> rv_eq(#[trigger] hm[j], hp[j - 1]),
        1 <= k <= ns.len(),
    ensures
        rv_eq(
            rv_sum(ns.take(k)),
            rv_sub(rv_sum(u.take(k)), rv_mul(lam, rv_sub(hp[k - 1], hm[0]))),
        ),
    decreases k,
{
    if k == 1 {
        assert(ns.take(1).drop_last() =~= ns.take(0));
        assert(u.take(1).drop_last() =~= u.take(0));
        assert(ns.take(0).len() == 0);
        assert(rv_sum(ns.take(0)) == rv_int(0));
        assert(rv_sum(u.take(0)) == rv_int(0));
        assert(ns.take(1).last() == ns[0]);
        assert(u.take(1).last() == u[0]);
        assert(rv_sum(ns.take(1)) == rv_add(rv_sum(ns.take(0)), ns[0]));
        let x = ns[0];
        assert(0 * x.d + x.n * 1 == x.n) by (nonlinear_arith);
        assert(1 * x.d == x.d) by (nonlinear_arith);
        assert(rv_add(rv_int(0), x) == x);
        let y = u[0];
        assert(0 * y.d + y.n * 1 == y.n) by (nonlinear_arith);
        assert(1 * y.d == y.d) by (nonlinear_arith);
        assert(rv_add(rv_int(0), y) == y);
        assert(rv_sum(u.take(1)) == u[0]);
        assert(rv_eq(rv_sum(ns.take(1)), rv_sub(rv_sum(u.take(1)), rv_mul(lam, rv_sub(hp[0], hm[0])))));
    } else {
        lemma_cons_prefix(u, hm, hp, lam, ns, k - 1);
        lemma_sum_take_succ(ns, k - 1);
        lemma_sum_take_succ(u, k - 1);
        // Well-formedness of everything in play.
        assert(all_rv_wf(ns.take(k - 1)));
        assert(all_rv_wf(u.take(k - 1)));
        lemma_sum_wf(ns.take(k - 1));
        lemma_sum_wf(u.take(k - 1));
        let a = rv_sum(u.take(k - 1));
        let b = u[k - 1];
        let p = rv_mul(lam, rv_sub(hp[k - 2], hm[0]));
        let q = rv_mul(lam, rv_sub(hp[k - 1], hm[k - 1]));
        lemma_rv_ops_wf(hp[k - 2], hm[0]);
        lemma_rv_ops_wf(lam, rv_sub(hp[k - 2], hm[0]));
        lemma_rv_ops_wf(hp[k - 1], hm[k - 1]);
        lemma_rv_ops_wf(lam, rv_sub(hp[k - 1], hm[k - 1]));
        lemma_rv_ops_wf(a, p);
        lemma_rv_ops_wf(b, q);
        lemma_rv_ops_wf(a, b);
        lemma_rv_ops_wf(p, q);
        // sum(ns, k) ~ (a - p) + (b - q)
        lemma_rv_add_congr(rv_sum(ns.take(k - 1)), ns[k - 1], rv_sub(a, p), rv_sub(b, q));
        // (a - p) + (b - q) == (a + b) - (p + q), on the nose
        lemma_shuffle(a, p, b, q);
        // p + q ~ lam * (hp[k-1] - hm[0])
        lemma_factor(lam, rv_sub(hp[k - 2], hm[0]), rv_sub(hp[k - 1], hm[k - 1]));
        lemma_cancel(hp[k - 2], hm[0], hp[k - 1], hm[k - 1]);
        lemma_rv_ops_wf(hp[k - 1], hm[0]);
        lemma_rv_ops_wf(rv_sub(hp[k - 2], hm[0]), rv_sub(hp[k - 1], hm[k - 1]));
        lemma_rv_mul_congr(
            lam,
            rv_add(rv_sub(hp[k - 2], hm[0]), rv_sub(hp[k - 1], hm[k - 1])),
            lam,
            rv_sub(hp[k - 1], hm[0]),
        );
        lemma_rv_ops_wf(lam, rv_add(rv_sub(hp[k - 2], hm[0]), rv_sub(hp[k - 1], hm[k - 1])));
        lemma_rv_ops_wf(lam, rv_sub(hp[k - 1], hm[0]));
        lemma_rv_eq_trans(
            rv_add(p, q),
            rv_mul(lam, rv_add(rv_sub(hp[k - 2], hm[0]), rv_sub(hp[k - 1], hm[k - 1]))),
            rv_mul(lam, rv_sub(hp[k - 1], hm[0])),
        );
        lemma_rv_ops_wf(rv_add(a, b), rv_add(p, q));
        // (a + b) - (p + q) ~ (a + b) - lam * (hp[k-1] - hm[0])
        lemma_rv_sub_congr(rv_add(a, b), rv_add(p, q), rv_add(a, b), rv_mul(lam, rv_sub(hp[k - 1], hm[0])));
        lemma_rv_ops_wf(rv_add(a, b), rv_mul(lam, rv_sub(hp[k - 1], hm[0])));
        lemma_sum_wf(ns.take(k));
        lemma_rv_eq_trans(
            rv_sum(ns.take(k)),
            rv_sub(rv_add(a, b), rv_add(p, q)),
            rv_sub(rv_add(a, b), rv_mul(lam, rv_sub(hp[k - 1], hm[0]))),
        );
        assert(rv_add(a, b) == rv_sum(u.take(k)));
    }
}

/// Conservation: if each cell's left interface flux equals its left
/// neighbour's right interface flux (wrapping around the ends), the
/// conservative update preserves the sum of the state exactly.
pub proof fn lemma_conservation(u: Seq<Rv>, hm: Seq<Rv>, hp: Seq<Rv>, lam: Rv, ns: Seq<Rv>)
    requires
        1 <= ns.len(),
        u.len() == ns.len(),
        hm.len() == ns.len(),
        hp.len() == ns.len(),
        all_rv_wf(u),
        all_rv_wf(hm),
        all_rv_wf(hp),
        all_rv_wf(ns),
        rv_wf(lam),
        forall|j: int|
            0 <= j < ns.len() ==> #[trigger] ns[j] == rv_sub(
                u[j],
                rv_mul(lam, rv_sub(hp[j], hm[j])),
            ),
        forall|j: int| 1 <= j < ns.len() ==> rv_eq(#[trigger] hm[j], hp[j - 1]),
        rv_eq(hm[0], hp[ns.len() - 1]),
    ensures
        rv_eq(rv_sum(ns), rv_sum(u)),
{
    let n = ns.len() as int;
    lemma_cons_prefix(u, hm, hp, lam, ns, n);
    assert(ns.take(n) =~= ns);
    assert(u.take(n) =~= u);
    let z = rv_sub(hp[n - 1], hm[0]);
    assert(z.n == 0);
    let w = rv_mul(lam, z);
    assert(w.n == 0) by (nonlinear_arith)
        requires w.n == lam.n * z.n && z.n == 0;
    let su = rv_sum(u);
    lemma_sum_wf(u);
    lemma_sum_wf(ns);
    lemma_rv_ops_wf(hp[n - 1], hm[0]);
    lemma_rv_ops_wf(lam, z);
    lemma_rv_ops_wf(su, w);
    assert(rv_eq(rv_sub(su, w), su)) by {
        assert((su.n * w.d - w.n * su.d) * su.d == su.n * (su.d * w.d)) by (nonlinear_arith)
            requires w.n == 0;
    }
    lemma_rv_eq_trans(rv_sum(ns), rv_sub(su, w), su);
}


/// The periodic extension repeats with the state's period.
proof fn lemma_ext_periodic(s: Seq<Rv>, k: nat, i: int)
    requires
        k <= s.len(),
        0 <= i < 2 * k,
    ensures
        ext_seq(s, Boundary::Periodic, k)[i + s.len()] == ext_seq(s, Boundary::Periodic, k)[i],
{
}

/// Every value of the extended state is well-formed.
proof fn lemma_uext_wf(s: Simluation, k: nat)
    requires
        s.wf(),
        k <= s.state@.len(),
    ensures
        all_rv_wf(uext(s, k)),
{
    assert forall|i: int| 0 <= i < uext(s, k).len() implies rv_wf(#[trigger] uext(s, k)[i]) by {
        assert(forall|j: int| 0 <= j < s.state@.len() ==> vals(s.state@)[j] == (#[trigger] s.state@[j])@);
    }
}

/// Every value of the extended flux is well-formed.
proof fn lemma_fext_wf<E: Equation>(eq: E, s: Simluation, k: nat)
    requires
        eq.wf(),
        s.wf(),
        k <= s.state@.len(),
    ensures
        all_rv_wf(fext(eq, s, k)),
{
    lemma_uext_wf(s, k);
    assert forall|i: int| 0 <= i < fext(eq, s, k).len() implies rv_wf(#[trigger] fext(eq, s, k)[i])
        by {
        assert(fext(eq, s, k)[i] == eq.spec_f(uext(s, k)[i]));
        eq.lemma_wf(uext(s, k)[i]);
    }
}

/// `dt/dx` is well-formed and positive.
proof fn lemma_lam_pos(s: Simluation)
    requires
        s.wf(),
    ensures
        rv_wf(lam_of(s)),
        lam_of(s).n > 0,
{
    let dt = s.dt@;
    let dx = s.dx@;
    assert(dt.n > 0 && dx.n > 0);
    assert(dt.n * dx.d > 0 && dt.d * dx.n > 0) by (nonlinear_arith)
        requires dt.n > 0 && dx.d > 0 && dt.d > 0 && dx.n > 0;
}

/// Under the periodic boundary the Lax-Friedrichs flux telescopes.
pub proof fn lemma_lax_friedrichs_wrap<E: Equation>(eq: E, s: Simluation)
    requires
        eq.wf(),
        s.wf(),
        s.boundary is Periodic,
        1 <= s.state@.len(),
    ensures
        forall|j: int|
            1 <= j < s.state@.len() ==> rv_eq(
                #[trigger] (LaxFriedrichs).hm_at(eq, s, j),
                (LaxFriedrichs).hp_at(eq, s, j - 1),
            ),
        rv_eq(
            (LaxFriedrichs).hm_at(eq, s, 0),
            (LaxFriedrichs).hp_at(eq, s, s.state@.len() - 1),
        ),
        forall|j: int|
            0 <= j < s.state@.len() ==> rv_wf(#[trigger] (LaxFriedrichs).hm_at(eq, s, j)) && rv_wf(
                (LaxFriedrichs).hp_at(eq, s, j),
            ),
{
    let n = s.state@.len() as int;
    let u = uext(s, 1);
    let f = fext(eq, s, 1);
    lemma_uext_wf(s, 1);
    lemma_fext_wf(eq, s, 1);
    lemma_lam_pos(s);
    assert forall|j: int| 1 <= j < n implies rv_eq(
        #[trigger] (LaxFriedrichs).hm_at(eq, s, j),
        (LaxFriedrichs).hp_at(eq, s, j - 1),
    ) by {
        assert((LaxFriedrichs).hm_at(eq, s, j) == (LaxFriedrichs).hp_at(eq, s, j - 1));
    }
    lemma_ext_periodic(vals(s.state@), 1, 0);
    lemma_ext_periodic(vals(s.state@), 1, 1);
    assert(u[n] == u[0] && u[n + 1] == u[1]);
    assert(f[n] == eq.spec_f(u[n]) && f[0] == eq.spec_f(u[0]));
    assert(f[n + 1] == eq.spec_f(u[n + 1]) && f[1] == eq.spec_f(u[1]));
    assert((LaxFriedrichs).hm_at(eq, s, 0) == (LaxFriedrichs).hp_at(eq, s, n - 1));
    assert forall|j: int| 0 <= j < n implies rv_wf(#[trigger] (LaxFriedrichs).hm_at(eq, s, j))
        && rv_wf((LaxFriedrichs).hp_at(eq, s, j)) by {
        lemma_rv_ops_wf(f[j + 1], f[j]);
        lemma_rv_ops_wf(u[j + 1], u[j]);
        lemma_rv_ops_wf(lam_of(s), rv_sub(u[j + 1], u[j]));
        lemma_rv_ops_wf(rv_add(f[j + 1], f[j]), rv_mul(lam_of(s), rv_sub(u[j + 1], u[j])));
        lemma_rv_ops_wf(
            rv_sub(rv_add(f[j + 1], f[j]), rv_mul(lam_of(s), rv_sub(u[j + 1], u[j]))),
            rv_int(2),
        );
        lemma_rv_ops_wf(f[j + 2], f[j + 1]);
        lemma_rv_ops_wf(u[j + 2], u[j + 1]);
        lemma_rv_ops_wf(lam_of(s), rv_sub(u[j + 2], u[j + 1]));
        lemma_rv_ops_wf(
            rv_add(f[j + 2], f[j + 1]),
            rv_mul(lam_of(s), rv_sub(u[j + 2], u[j + 1])),
        );
        lemma_rv_ops_wf(
            rv_sub(rv_add(f[j + 2], f[j + 1]), rv_mul(lam_of(s), rv_sub(u[j + 2], u[j + 1]))),
            rv_int(2),
        );
    }
}

/// Under the periodic boundary the Lax-Wendroff flux telescopes.
pub proof fn lemma_lax_wendroff_wrap<E: Equation>(eq: E, s: Simluation)
    requires
        eq.wf(),
        s.wf(),
        s.boundary is Periodic,
        1 <= s.state@.len(),
    ensures
        forall|j: int|
            1 <= j < s.state@.len() ==> rv_eq(
                #[trigger] (LaxWendroff).hm_at(eq, s, j),
                (LaxWendroff).hp_at(eq, s, j - 1),
            ),
        rv_eq((LaxWendroff).hm_at(eq, s, 0), (LaxWendroff).hp_at(eq, s, s.state@.len() - 1)),
        forall|j: int|
            0 <= j < s.state@.len() ==> rv_wf(#[trigger] (LaxWendroff).hm_at(eq, s, j)) && rv_wf(
                (LaxWendroff).hp_at(eq, s, j),
            ),
{
    let n = s.state@.len() as int;
    let u = uext(s, 1);
    let f = fext(eq, s, 1);
    lemma_uext_wf(s, 1);
    lemma_fext_wf(eq, s, 1);
    lemma_lam_pos(s);
    assert forall|j: int| 1 <= j < n implies rv_eq(
        #[trigger] (LaxWendroff).hm_at(eq, s, j),
        (LaxWendroff).hp_at(eq, s, j - 1),
    ) by {
        assert((LaxWendroff).hm_at(eq, s, j) == (LaxWendroff).hp_at(eq, s, j - 1));
    }
    lemma_ext_periodic(vals(s.state@), 1, 0);
    lemma_ext_periodic(vals(s.state@), 1, 1);
    assert(u[n] == u[0] && u[n + 1] == u[1]);
    assert(f[n] == eq.spec_f(u[n]) && f[0] == eq.spec_f(u[0]));
    assert(f[n + 1] == eq.spec_f(u[n + 1]) && f[1] == eq.spec_f(u[1]));
    assert((LaxWendroff).hm_at(eq, s, 0) == (LaxWendroff).hp_at(eq, s, n - 1));
    assert forall|j: int| 0 <= j < n implies rv_wf(#[trigger] (LaxWendroff).hm_at(eq, s, j))
        && rv_wf((LaxWendroff).hp_at(eq, s, j)) by {
        lemma_rv_ops_wf(u[j + 1], u[j]);
        lemma_rv_ops_wf(f[j + 1], f[j]);
        lemma_rv_ops_wf(lam_of(s), rv_sub(f[j + 1], f[j]));
        lemma_rv_ops_wf(rv_add(u[j + 1], u[j]), rv_mul(lam_of(s), rv_sub(f[j + 1], f[j])));
        lemma_rv_ops_wf(
            rv_sub(rv_add(u[j + 1], u[j]), rv_mul(lam_of(s), rv_sub(f[j + 1], f[j]))),
            rv_int(2),
        );
        eq.lemma_wf(lw_arg(lam_of(s), u[j + 1], u[j], f[j + 1], f[j]));
        lemma_rv_ops_wf(u[j + 2], u[j + 1]);
        lemma_rv_ops_wf(f[j + 2], f[j + 1]);
        lemma_rv_ops_wf(lam_of(s), rv_sub(f[j + 2], f[j + 1]));
        lemma_rv_ops_wf(
            rv_add(u[j + 2], u[j + 1]),
            rv_mul(lam_of(s), rv_sub(f[j + 2], f[j + 1])),
        );
        lemma_rv_ops_wf(
            rv_sub(rv_add(u[j + 2], u[j + 1]), rv_mul(lam_of(s), rv_sub(f[j + 2], f[j + 1]))),
            rv_int(2),
        );
        eq.lemma_wf(lw_arg(lam_of(s), u[j + 2], u[j + 1], f[j + 2], f[j + 1]));
    }
}

/// Conservation for any scheme whose flux telescopes under the periodic
/// boundary: one conservative step preserves the exact sum of the state.
pub proof fn lemma_scheme_conservation<E: Equation, S: Scheme<E>>(
    scheme: S,
    eq: E,
    s: Simluation,
    ns: Seq<Rv>,
)
    requires
        scheme.wf(),
        eq.wf(),
        s.wf(),
        1 <= s.state@.len(),
        ns.len() == s.state@.len(),
        all_rv_wf(ns),
        forall|j: int| 0 <= j < ns.len() ==> #[trigger] ns[j] == new_state_at(scheme, eq, s, j),
        forall|j: int|
            1 <= j < s.state@.len() ==> rv_eq(
                #[trigger] scheme.hm_at(eq, s, j),
                scheme.hp_at(eq, s, j - 1),
            ),
        rv_eq(scheme.hm_at(eq, s, 0), scheme.hp_at(eq, s, s.state@.len() - 1)),
        forall|j: int|
            0 <= j < s.state@.len() ==> rv_wf(#[trigger] scheme.hm_at(eq, s, j)) && rv_wf(
                scheme.hp_at(eq, s, j),
            ),
    ensures
        rv_eq(rv_sum(ns), rv_sum(vals(s.state@))),
{
    let n = s.state@.len() as int;
    let u = vals(s.state@);
    let hm = Seq::new(n as nat, |j: int| scheme.hm_at(eq, s, j));
    let hp = Seq::new(n as nat, |j: int| scheme.hp_at(eq, s, j));
    lemma_lam_pos(s);
    assert(all_rv_wf(u)) by {
        assert(forall|j: int| 0 <= j < n ==> vals(s.state@)[j] == (#[trigger] s.state@[j])@);
    }
    assert(all_rv_wf(hm));
    assert forall|j: int| 0 <= j < n implies rv_wf(#[trigger] hp[j]) by {
        assert(rv_wf(scheme.hm_at(eq, s, j)) && rv_wf(scheme.hp_at(eq, s, j)));
    }
    assert(all_rv_wf(hp));
    assert(forall|j: int|
        0 <= j < n ==> #[trigger] ns[j] == rv_sub(u[j], rv_mul(lam_of(s), rv_sub(hp[j], hm[j]))));
    assert(forall|j: int| 1 <= j < n ==> rv_eq(#[trigger] hm[j], hp[j - 1]));
    assert(rv_eq(hm[0], hp[n - 1]));
    lemma_conservation(u, hm, hp, lam_of(s), ns);
}


/// At one interface, the two upwind flux picks agree in value: the
/// upstream pick and the downstream pick differ only when the interface
/// speed is exactly zero, and then the two flux values coincide.
proof fn lemma_upwind_iface<E: Equation>(eq: E, lam: Rv, u0: Rv, u1: Rv)
    requires
        eq.wf(),
        rv_wf(lam),
        lam.n > 0,
        rv_wf(u0),
        rv_wf(u1),
    ensures
        ({
            let f0 = eq.spec_f(u0);
            let f1 = eq.spec_f(u1);
            let v = sp_v(eq, lam, u0, rv_sub(u1, u0), rv_sub(f1, f0));
            rv_eq(
                if rv_lt(v, rv_int(0)) {
                    f1
                } else {
                    f0
                },
                if rv_lt(rv_int(0), v) {
                    f0
                } else {
                    f1
                },
            )
        }),
{
    let f0 = eq.spec_f(u0);
    let f1 = eq.spec_f(u1);
    eq.lemma_wf(u0);
    eq.lemma_wf(u1);
    let du = rv_sub(u1, u0);
    let dfv = rv_sub(f1, f0);
    lemma_rv_ops_wf(u1, u0);
    lemma_rv_ops_wf(f1, f0);
    let x = if du.n == 0 {
        eq.spec_df(u0)
    } else {
        rv_div(dfv, du)
    };
    if du.n != 0 {
        lemma_rv_ops_wf(dfv, du);
    }
    let v = rv_mul(x, lam);
    lemma_rv_ops_wf(x, lam);
    assert(v == sp_v(eq, lam, u0, du, dfv));
    assert(v.n * 1 == v.n) by (nonlinear_arith);
    assert(0 * v.d == 0) by (nonlinear_arith);
    if v.n < 0 {
    } else if v.n > 0 {
    } else {
        assert(v.n == x.n * lam.n);
        assert(x.n == 0) by (nonlinear_arith)
            requires x.n * lam.n == 0 && lam.n > 0;
        if du.n == 0 {
            assert(rv_eq(u1, u0));
            eq.lemma_congr(u1, u0);
        } else {
            assert(dfv.n * du.d == 0) by {
                if du.n > 0 {
                    assert(x.n == dfv.n * du.d);
                } else {
                    assert(x.n == -(dfv.n * du.d));
                }
            }
            assert(dfv.n == 0) by (nonlinear_arith)
                requires dfv.n * du.d == 0 && du.d > 0;
        }
        assert(rv_eq(f0, f1));
    }
}

/// Under the periodic boundary the upwind flux telescopes.
pub proof fn lemma_upwind_wrap<E: Equation>(eq: E, s: Simluation)
    requires
        eq.wf(),
        s.wf(),
        s.boundary is Periodic,
        1 <= s.state@.len(),
    ensures
        forall|j: int|
            1 <= j < s.state@.len() ==> rv_eq(
                #[trigger] (Upwind).hm_at(eq, s, j),
                (Upwind).hp_at(eq, s, j - 1),
            ),
        rv_eq((Upwind).hm_at(eq, s, 0), (Upwind).hp_at(eq, s, s.state@.len() - 1)),
        forall|j: int|
            0 <= j < s.state@.len() ==> rv_wf(#[trigger] (Upwind).hm_at(eq, s, j)) && rv_wf(
                (Upwind).hp_at(eq, s, j),
            ),
{
    let n = s.state@.len() as int;
    let u = uext(s, 1);
    let f = fext(eq, s, 1);
    lemma_uext_wf(s, 1);
    lemma_fext_wf(eq, s, 1);
    lemma_lam_pos(s);
    let lam = lam_of(s);
    assert forall|j: int| 1 <= j < n implies rv_eq(
        #[trigger] (Upwind).hm_at(eq, s, j),
        (Upwind).hp_at(eq, s, j - 1),
    ) by {
        assert(f[j] == eq.spec_f(u[j]) && f[j + 1] == eq.spec_f(u[j + 1]));
        lemma_upwind_iface(eq, lam, u[j], u[j + 1]);
        assert(vneg_at(eq, lam, u, f, 0, j) == sp_v(
            eq,
            lam,
            u[j],
            rv_sub(u[j + 1], u[j]),
            rv_sub(eq.spec_f(u[j + 1]), eq.spec_f(u[j])),
        ));
        assert(vpos_at(eq, lam, u, f, j - 1) == vneg_at(eq, lam, u, f, 0, j));
    }
    lemma_ext_periodic(vals(s.state@), 1, 0);
    lemma_ext_periodic(vals(s.state@), 1, 1);
    assert(u[n] == u[0] && u[n + 1] == u[1]);
    assert(f[n] == eq.spec_f(u[n]) && f[0] == eq.spec_f(u[0]));
    assert(f[n + 1] == eq.spec_f(u[n + 1]) && f[1] == eq.spec_f(u[1]));
    assert(f[0] == eq.spec_f(u[0]) && f[1] == eq.spec_f(u[1]));
    lemma_upwind_iface(eq, lam, u[0], u[1]);
    assert(vneg_at(eq, lam, u, f, 0, 0) == sp_v(
        eq,
        lam,
        u[0],
        rv_sub(u[1], u[0]),
        rv_sub(eq.spec_f(u[1]), eq.spec_f(u[0])),
    ));
    assert(vpos_at(eq, lam, u, f, n - 1) == vneg_at(eq, lam, u, f, 0, 0));
    assert(rv_eq((Upwind).hm_at(eq, s, 0), (Upwind).hp_at(eq, s, n - 1)));
    assert forall|j: int| 0 <= j < n implies rv_wf(#[trigger] (Upwind).hm_at(eq, s, j)) && rv_wf(
        (Upwind).hp_at(eq, s, j),
    ) by {
        assert(rv_wf(f[j]) && rv_wf(f[j + 1]) && rv_wf(f[j + 2]));
    }
}


/// Fractions equal in value have numerators of the same sign.
proof fn lemma_rv_eq_sign(a: Rv, b: Rv)
    requires
        rv_wf(a),
        rv_wf(b),
        rv_eq(a, b),
    ensures
        a.n > 0 <==> b.n > 0,
{
    assert((a.n > 0 <==> b.n > 0)) by (nonlinear_arith)
        requires a.n * b.d == b.n * a.d && a.d > 0 && b.d > 0;
}

/// An interface speed is a well-formed fraction.
proof fn lemma_v_wf<E: Equation>(eq: E, lam: Rv, ufb: Rv, du: Rv, dfv: Rv)
    requires
        eq.wf(),
        rv_wf(lam),
        rv_wf(ufb),
        rv_wf(du),
        rv_wf(dfv),
    ensures
        rv_wf(sp_v(eq, lam, ufb, du, dfv)),
{
    if du.n == 0 {
        eq.lemma_wf(ufb);
        lemma_rv_ops_wf(eq.spec_df(ufb), lam);
    } else {
        lemma_rv_ops_wf(dfv, du);
        lemma_rv_ops_wf(rv_div(dfv, du), lam);
    }
}

/// Both Beam-Warming flux formulas give well-formed fractions.
proof fn lemma_bw_val_wf(v: Rv, x: Rv, y: Rv)
    requires
        rv_wf(v),
        rv_wf(x),
        rv_wf(y),
    ensures
        rv_wf(bw_up_val(v, x, y)),
        rv_wf(bw_dn_val(v, x, y)),
{
    lemma_rv_ops_wf(rv_int(3), x);
    lemma_rv_ops_wf(rv_mul(rv_int(3), x), y);
    lemma_rv_ops_wf(x, y);
    lemma_rv_ops_wf(y, x);
    lemma_rv_ops_wf(v, rv_sub(x, y));
    lemma_rv_ops_wf(v, rv_sub(y, x));
    lemma_rv_ops_wf(rv_sub(rv_mul(rv_int(3), x), y), rv_mul(v, rv_sub(x, y)));
    lemma_rv_ops_wf(rv_sub(rv_mul(rv_int(3), x), y), rv_mul(v, rv_sub(y, x)));
    lemma_rv_ops_wf(rv_sub(rv_sub(rv_mul(rv_int(3), x), y), rv_mul(v, rv_sub(x, y))), rv_int(2));
    lemma_rv_ops_wf(rv_sub(rv_sub(rv_mul(rv_int(3), x), y), rv_mul(v, rv_sub(y, x))), rv_int(2));
}

/// Two interface speeds over the same differences, with fallback cells
/// that coincide whenever the fallback is taken, have the same sign.
proof fn lemma_bw_same_sign<E: Equation>(eq: E, lam: Rv, ua: Rv, ub: Rv, dfv: Rv)
    requires
        eq.wf(),
        rv_wf(lam),
        lam.n > 0,
        rv_wf(ua),
        rv_wf(ub),
        rv_wf(dfv),
    ensures
        ({
            let du = rv_sub(ua, ub);
            rv_lt(rv_int(0), sp_v(eq, lam, ua, du, dfv)) <==> rv_lt(
                rv_int(0),
                sp_v(eq, lam, ub, du, dfv),
            )
        }),
{
    let du = rv_sub(ua, ub);
    lemma_rv_ops_wf(ua, ub);
    let va = sp_v(eq, lam, ua, du, dfv);
    let vb = sp_v(eq, lam, ub, du, dfv);
    lemma_v_wf(eq, lam, ua, du, dfv);
    lemma_v_wf(eq, lam, ub, du, dfv);
    assert(va.n * 1 == va.n) by (nonlinear_arith);
    assert(vb.n * 1 == vb.n) by (nonlinear_arith);
    assert(0 * va.d == 0) by (nonlinear_arith);
    assert(0 * vb.d == 0) by (nonlinear_arith);
    if du.n == 0 {
        assert(rv_eq(ua, ub));
        eq.lemma_congr(ua, ub);
        eq.lemma_wf(ua);
        eq.lemma_wf(ub);
        lemma_rv_mul_congr(eq.spec_df(ua), lam, eq.spec_df(ub), lam);
        lemma_rv_ops_wf(eq.spec_df(ua), lam);
        lemma_rv_ops_wf(eq.spec_df(ub), lam);
        lemma_rv_eq_sign(va, vb);
    } else {
        assert(va == vb);
    }
}

/// Under the periodic boundary the Beam-Warming flux telescopes.
pub proof fn lemma_beam_warming_wrap<E: Equation>(eq: E, s: Simluation)
    requires
        eq.wf(),
        s.wf(),
        s.boundary is Periodic,
        2 <= s.state@.len(),
    ensures
        forall|j: int|
            1 <= j < s.state@.len() ==> rv_eq(
                #[trigger] (BeamWarming).hm_at(eq, s, j),
                (BeamWarming).hp_at(eq, s, j - 1),
            ),
        rv_eq((BeamWarming).hm_at(eq, s, 0), (BeamWarming).hp_at(eq, s, s.state@.len() - 1)),
        forall|j: int|
            0 <= j < s.state@.len() ==> rv_wf(#[trigger] (BeamWarming).hm_at(eq, s, j)) && rv_wf(
                (BeamWarming).hp_at(eq, s, j),
            ),
{
    let n = s.state@.len() as int;
    let u = uext(s, 2);
    let f = fext(eq, s, 2);
    lemma_uext_wf(s, 2);
    lemma_fext_wf(eq, s, 2);
    lemma_lam_pos(s);
    let lam = lam_of(s);
    assert forall|j: int| 1 <= j < n implies rv_eq(
        #[trigger] (BeamWarming).hm_at(eq, s, j),
        (BeamWarming).hp_at(eq, s, j - 1),
    ) by {
        lemma_rv_ops_wf(f[j + 2], f[j + 1]);
        lemma_bw_same_sign(eq, lam, u[j + 2], u[j + 1], rv_sub(f[j + 2], f[j + 1]));
        assert(vneg_at(eq, lam, u, f, 1, j + 1) == sp_v(
            eq,
            lam,
            u[j + 2],
            rv_sub(u[j + 2], u[j + 1]),
            rv_sub(f[j + 2], f[j + 1]),
        ));
        assert(vpos_at(eq, lam, u, f, j) == sp_v(
            eq,
            lam,
            u[j + 1],
            rv_sub(u[j + 2], u[j + 1]),
            rv_sub(f[j + 2], f[j + 1]),
        ));
        assert((BeamWarming).hm_at(eq, s, j) == (BeamWarming).hp_at(eq, s, j - 1));
    }
    assert forall|i: int| 0 <= i < 4 implies #[trigger] u[i + n] == u[i] && f[i + n] == f[i] by {
        lemma_ext_periodic(vals(s.state@), 2, i);
        assert(f[i + n] == eq.spec_f(u[i + n]) && f[i] == eq.spec_f(u[i]));
    }
    lemma_rv_ops_wf(f[2], f[1]);
    lemma_bw_same_sign(eq, lam, u[2], u[1], rv_sub(f[2], f[1]));
    assert(vneg_at(eq, lam, u, f, 1, 1) == sp_v(
        eq,
        lam,
        u[2],
        rv_sub(u[2], u[1]),
        rv_sub(f[2], f[1]),
    ));
    assert(vpos_at(eq, lam, u, f, n) == sp_v(
        eq,
        lam,
        u[1],
        rv_sub(u[2], u[1]),
        rv_sub(f[2], f[1]),
    ));
    assert(vneg_at(eq, lam, u, f, 1, n) == vneg_at(eq, lam, u, f, 1, 0));
    assert(vpos_at(eq, lam, u, f, n + 1) == vpos_at(eq, lam, u, f, 1));
    assert(rv_eq((BeamWarming).hm_at(eq, s, 0), (BeamWarming).hp_at(eq, s, n - 1)));
    assert forall|j: int| 0 <= j < n implies rv_wf(#[trigger] (BeamWarming).hm_at(eq, s, j))
        && rv_wf((BeamWarming).hp_at(eq, s, j)) by {
        lemma_rv_ops_wf(u[j + 1], u[j]);
        lemma_rv_ops_wf(u[j + 2], u[j + 1]);
        lemma_rv_ops_wf(u[j + 3], u[j + 2]);
        lemma_rv_ops_wf(u[j + 4], u[j + 3]);
        lemma_rv_ops_wf(f[j + 1], f[j]);
        lemma_rv_ops_wf(f[j + 2], f[j + 1]);
        lemma_rv_ops_wf(f[j + 3], f[j + 2]);
        lemma_rv_ops_wf(f[j + 4], f[j + 3]);
        lemma_v_wf(eq, lam, u[j + 1], rv_sub(u[j + 1], u[j]), rv_sub(f[j + 1], f[j]));
        lemma_v_wf(eq, lam, u[j + 2], rv_sub(u[j + 2], u[j + 1]), rv_sub(f[j + 2], f[j + 1]));
        lemma_v_wf(eq, lam, u[j + 2], rv_sub(u[j + 3], u[j + 2]), rv_sub(f[j + 3], f[j + 2]));
        lemma_v_wf(eq, lam, u[j + 3], rv_sub(u[j + 4], u[j + 3]), rv_sub(f[j + 4], f[j + 3]));
        lemma_bw_val_wf(vneg_at(eq, lam, u, f, 1, j), f[j + 1], f[j]);
        lemma_bw_val_wf(vpos_at(eq, lam, u, f, j + 1), f[j + 2], f[j + 3]);
        lemma_bw_val_wf(vneg_at(eq, lam, u, f, 1, j + 1), f[j + 2], f[j + 1]);
        lemma_bw_val_wf(vpos_at(eq, lam, u, f, j + 2), f[j + 3], f[j + 4]);
    }
}


/// One upwind step under the periodic boundary preserves the exact sum of
/// the state.
pub proof fn lemma_upwind_conservation<E: Equation>(eq: E, s: Simluation, ns: Seq<Rv>)
    requires
        eq.wf(),
        s.wf(),
        s.boundary is Periodic,
        1 <= s.state@.len(),
        ns.len() == s.state@.len(),
        all_rv_wf(ns),
        forall|j: int| 0 <= j < ns.len() ==> #[trigger] ns[j] == new_state_at(Upwind, eq, s, j),
    ensures
        rv_eq(rv_sum(ns), rv_sum(vals(s.state@))),
{
    lemma_upwind_wrap(eq, s);
    assert forall|j: int| 0 <= j < s.state@.len() implies rv_wf(
        #[trigger] (Upwind).hm_at(eq, s, j),
    ) && rv_wf((Upwind).hp_at(eq, s, j)) by {
        assert(rv_wf((Upwind).hm_at(eq, s, j)));
    }
    lemma_scheme_conservation(Upwind, eq, s, ns);
}

/// One Beam-Warming step under the periodic boundary preserves the exact
/// sum of the state.
pub proof fn lemma_beam_warming_conservation<E: Equation>(eq: E, s: Simluation, ns: Seq<Rv>)
    requires
        eq.wf(),
        s.wf(),
        s.boundary is Periodic,
        2 <= s.state@.len(),
        ns.len() == s.state@.len(),
        all_rv_wf(ns),
        forall|j: int|
            0 <= j < ns.len() ==> #[trigger] ns[j] == new_state_at(BeamWarming, eq, s, j),
    ensures
        rv_eq(rv_sum(ns), rv_sum(vals(s.state@))),
{
    lemma_beam_warming_wrap(eq, s);
    assert forall|j: int| 0 <= j < s.state@.len() implies rv_wf(
        #[trigger] (BeamWarming).hm_at(eq, s, j),
    ) && rv_wf((BeamWarming).hp_at(eq, s, j)) by {
        assert(rv_wf((BeamWarming).hm_at(eq, s, j)));
    }
    lemma_scheme_conservation(BeamWarming, eq, s, ns);
}

/// One Lax-Wendroff step under the periodic boundary preserves the exact
/// sum of the state.
pub proof fn lemma_lax_wendroff_conservation<E: Equation>(eq: E, s: Simluation, ns: Seq<Rv>)
    requires
        eq.wf(),
        s.wf(),
        s.boundary is Periodic,
        1 <= s.state@.len(),
        ns.len() == s.state@.len(),
        all_rv_wf(ns),
        forall|j: int|
            0 <= j < ns.len() ==> #[trigger] ns[j] == new_state_at(LaxWendroff, eq, s, j),
    ensures
        rv_eq(rv_sum(ns), rv_sum(vals(s.state@))),
{
    lemma_lax_wendroff_wrap(eq, s);
    assert forall|j: int| 0 <= j < s.state@.len() implies rv_wf(
        #[trigger] (LaxWendroff).hm_at(eq, s, j),
    ) && rv_wf((LaxWendroff).hp_at(eq, s, j)) by {
        assert(rv_wf((LaxWendroff).hm_at(eq, s, j)));
    }
    lemma_scheme_conservation(LaxWendroff, eq, s, ns);
}

/// One Lax-Friedrichs step under the periodic boundary preserves the exact
/// sum of the state.
pub proof fn lemma_lax_friedrichs_conservation<E: Equation>(eq: E, s: Simluation, ns: Seq<Rv>)
    requires
        eq.wf(),
        s.wf(),
        s.boundary is Periodic,
        1 <= s.state@.len(),
        ns.len() == s.state@.len(),
        all_rv_wf(ns),
        forall|j: int|
            0 <= j < ns.len() ==> #[trigger] ns[j] == new_state_at(LaxFriedrichs, eq, s, j),
    ensures
        rv_eq(rv_sum(ns), rv_sum(vals(s.state@))),
{
    lemma_lax_friedrichs_wrap(eq, s);
    assert forall|j: int| 0 <= j < s.state@.len() implies rv_wf(
        #[trigger] (LaxFriedrichs).hm_at(eq, s, j),
    ) && rv_wf((LaxFriedrichs).hp_at(eq, s, j)) by {
        assert(rv_wf((LaxFriedrichs).hm_at(eq, s, j)));
    }
    lemma_scheme_conservation(LaxFriedrichs, eq, s, ns);
}

} // verus!
