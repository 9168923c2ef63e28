//! Model-independent laws of the gravity pass, stated over the pinned
//! velocity transforms and proved once and for all.

use vstd::prelude::*;

use crate::coord::{
    lemma_abs_eqv, lemma_abs_mul, lemma_add_eqv, lemma_eqv_trans, lemma_lt_eqv,
    lemma_mul_distributes, lemma_mul_eqv, lemma_neg_eqv, lemma_sign, lemma_sq_lt,
    lemma_sqrt_floor_bounds, lemma_sqrt_floor_unique, lemma_sub_then_delta, lemma_sub_zero_num,
    lemma_wf_ops, rat_abs,
    rat_add, rat_eqv, rat_lt, rat_mul, rat_neg, rat_one, rat_sub, rat_wf, rat_zero, sqrt_floor,
    Rat, SQRT_SCALE,
};
use crate::gravity::{
    fa2_dist, fa2_factor, fa2_sg_factor, forceatlas2_sg_speeds, forceatlas2_speeds,
    fruchterman_factor, fruchterman_speeds, grav_speeds, lemma_sum_sq_wf, rat_centi, sum_sq,
    GravityModel,
};
use crate::layout::{seq_view, Layout};

verus! {

/// Determinism: the velocities a model leaves behind are a function of the
/// layout alone — two passes of one model over equal layouts agree.
pub proof fn lemma_gravity_deterministic(model: GravityModel, a: Layout, b: Layout)
    requires
        a == b,
    ensures
        grav_speeds(model, a) == grav_speeds(model, b),
{
}

/// A pull of any well-formed factor toward a center the node already sits at
/// leaves the velocity value unchanged.
pub proof fn lemma_factor_noop(v: Rat, f: Rat, p: Rat, c: Rat)
    requires
        rat_wf(v),
        rat_wf(f),
        rat_wf(p),
        rat_wf(c),
        rat_eqv(p, c),
    ensures
        rat_eqv(rat_sub(v, rat_mul(f, rat_sub(p, c))), v),
{
    let dl = rat_sub(p, c);
    let t = rat_mul(f, dl);
    assert(dl.n == 0);
    assert(f.n * dl.n == 0) by (nonlinear_arith)
        requires
            dl.n == 0,
    ;
    lemma_wf_ops(p, c);
    lemma_wf_ops(f, dl);
    lemma_sub_zero_num(v, t);
}

/// A strictly larger, nonnegative factor pulls strictly harder along every
/// dimension where the node is away from the center: the velocity change
/// grows in absolute value.
pub proof fn lemma_stronger_pull(v: Rat, f1: Rat, f2: Rat, dl: Rat)
    requires
        rat_wf(v),
        rat_wf(f1),
        rat_wf(f2),
        rat_wf(dl),
        dl.n != 0,
        f1.n >= 0,
        rat_lt(f1, f2),
    ensures
        rat_lt(
            rat_abs(rat_sub(rat_sub(v, rat_mul(f1, dl)), v)),
            rat_abs(rat_sub(rat_sub(v, rat_mul(f2, dl)), v)),
        ),
{
    let t1 = rat_mul(f1, dl);
    let t2 = rat_mul(f2, dl);
    lemma_wf_ops(f1, dl);
    lemma_wf_ops(f2, dl);
    let d1 = rat_sub(rat_sub(v, t1), v);
    let d2 = rat_sub(rat_sub(v, t2), v);
    lemma_wf_ops(v, t1);
    lemma_wf_ops(rat_sub(v, t1), v);
    lemma_wf_ops(v, t2);
    lemma_wf_ops(rat_sub(v, t2), v);
    lemma_sub_then_delta(v, t1);
    lemma_sub_then_delta(v, t2);
    lemma_abs_eqv(d1, rat_neg(t1));
    lemma_abs_eqv(d2, rat_neg(t2));
    assert(rat_abs(rat_neg(t1)) == rat_abs(t1));
    assert(rat_abs(rat_neg(t2)) == rat_abs(t2));
    lemma_abs_mul(f1, dl);
    lemma_abs_mul(f2, dl);
    let adl = rat_abs(dl);
    assert(rat_abs(f1) == f1);
    assert(f2.n > 0) by (nonlinear_arith)
        requires
            f1.n * f2.d < f2.n * f1.d,
            f1.n >= 0,
            f1.d > 0,
            f2.d > 0,
    ;
    assert(rat_abs(f2) == f2);
    assert(adl.n > 0 && adl.d > 0);
    assert((f1.n * adl.n) * (f2.d * adl.d) < (f2.n * adl.n) * (f1.d * adl.d)) by (nonlinear_arith)
        requires
            f1.n * f2.d < f2.n * f1.d,
            adl.n > 0,
            adl.d > 0,
            f1.d > 0,
            f2.d > 0,
    ;
    assert(rat_lt(rat_abs(t1), rat_abs(t2)));
    lemma_lt_eqv(rat_abs(t1), rat_abs(t2), rat_abs(d1), rat_abs(d2));
}

/// Scaling the factor of a pull scales the velocity change by the same
/// amount, along every dimension.
pub proof fn lemma_scaled_pull(v: Rat, f1: Rat, f2: Rat, s: Rat, dl: Rat)
    requires
        rat_wf(v),
        rat_wf(f1),
        rat_wf(f2),
        rat_wf(s),
        rat_wf(dl),
        rat_eqv(f2, rat_mul(s, f1)),
    ensures
        rat_eqv(
            rat_sub(rat_sub(v, rat_mul(f2, dl)), v),
            rat_mul(s, rat_sub(rat_sub(v, rat_mul(f1, dl)), v)),
        ),
{
    let t1 = rat_mul(f1, dl);
    let t2 = rat_mul(f2, dl);
    lemma_wf_ops(f1, dl);
    lemma_wf_ops(f2, dl);
    lemma_wf_ops(s, f1);
    lemma_wf_ops(rat_mul(s, f1), dl);
    lemma_wf_ops(s, t1);
    let d1 = rat_sub(rat_sub(v, t1), v);
    let d2 = rat_sub(rat_sub(v, t2), v);
    lemma_wf_ops(v, t1);
    lemma_wf_ops(rat_sub(v, t1), v);
    lemma_wf_ops(v, t2);
    lemma_wf_ops(rat_sub(v, t2), v);
    lemma_sub_then_delta(v, t1);
    lemma_sub_then_delta(v, t2);
    // t2 has the value s * t1.
    lemma_mul_eqv(f2, dl, rat_mul(s, f1), dl);
    let u = rat_mul(rat_mul(s, f1), dl);
    let w = rat_mul(s, t1);
    assert(rat_eqv(u, w)) by (nonlinear_arith)
        requires
            u.n == (s.n * f1.n) * dl.n,
            u.d == (s.d * f1.d) * dl.d,
            w.n == s.n * (f1.n * dl.n),
            w.d == s.d * (f1.d * dl.d),
    ;
    lemma_eqv_trans(t2, u, w);
    // so -t2 has the value s * -t1, which is the value of s * d1.
    lemma_neg_eqv(t2, w);
    assert(rat_neg(w) == rat_mul(s, rat_neg(t1))) by {
        assert(-(s.n * t1.n) == s.n * (-t1.n)) by (nonlinear_arith);
    }
    lemma_wf_ops(s, rat_neg(t1));
    lemma_eqv_trans(d2, rat_neg(t2), rat_mul(s, rat_neg(t1)));
    lemma_mul_eqv(s, d1, s, rat_neg(t1));
    lemma_wf_ops(s, d1);
    lemma_eqv_trans(d2, rat_mul(s, rat_neg(t1)), rat_mul(s, d1));
}

/// No-op at center, Fruchterman-Reingold: a node whose position equals the
/// center receives a zero velocity change — every velocity value of that node
/// is left as it was.
pub proof fn lemma_noop_at_center_fruchterman(l: Layout, i: int)
    requires
        l.wf(),
        0 <= i < l.speeds@.len(),
        l.points@[i]@.len() <= l.settings.center@.len(),
        forall|j: int|
            0 <= j < l.points@[i]@.len() ==> rat_eqv(
                (#[trigger] l.points@[i]@[j])@,
                l.settings.center@[j]@,
            ),
    ensures
        forall|j: int|
            0 <= j < l.speeds@[i]@.len() ==> rat_eqv(
                #[trigger] fruchterman_speeds(l)[i][j],
                l.speeds@[i]@[j]@,
            ),
{
    let gf = fruchterman_factor(l);
    lemma_wf_ops(rat_centi(), l.settings.ka@);
    lemma_wf_ops(rat_mul(rat_centi(), l.settings.ka@), l.settings.kg@);
    assert forall|j: int| 0 <= j < l.speeds@[i]@.len() implies rat_eqv(
        #[trigger] fruchterman_speeds(l)[i][j],
        l.speeds@[i]@[j]@,
    ) by {
        lemma_factor_noop(l.speeds@[i]@[j]@, gf, l.points@[i]@[j]@, l.settings.center@[j]@);
    }
}

/// No-op at center, ForceAtlas2 strong gravity: a node whose position equals
/// the center receives a zero velocity change.
pub proof fn lemma_noop_at_center_forceatlas2_sg(l: Layout, i: int)
    requires
        l.wf(),
        0 <= i < l.speeds@.len(),
        l.points@[i]@.len() <= l.settings.center@.len(),
        forall|j: int|
            0 <= j < l.points@[i]@.len() ==> rat_eqv(
                (#[trigger] l.points@[i]@[j])@,
                l.settings.center@[j]@,
            ),
    ensures
        forall|j: int|
            0 <= j < l.speeds@[i]@.len() ==> rat_eqv(
                #[trigger] forceatlas2_sg_speeds(l)[i][j],
                l.speeds@[i]@[j]@,
            ),
{
    let f = fa2_sg_factor(l, i);
    lemma_wf_ops(l.masses@[i]@, rat_one());
    lemma_wf_ops(rat_add(l.masses@[i]@, rat_one()), l.settings.kg@);
    assert forall|j: int| 0 <= j < l.speeds@[i]@.len() implies rat_eqv(
        #[trigger] forceatlas2_sg_speeds(l)[i][j],
        l.speeds@[i]@[j]@,
    ) by {
        lemma_factor_noop(l.speeds@[i]@[j]@, f, l.points@[i]@[j]@, l.settings.center@[j]@);
    }
}

/// A sum of squares of zero-valued entries has a zero numerator.
proof fn lemma_sum_sq_zero(s: Seq<Rat>)
    requires
        forall|t: int| 0 <= t < s.len() ==> (#[trigger] s[t]).n == 0,
    ensures
        sum_sq(s).n == 0,
    decreases s.len(),
{
    if s.len() > 0 {
        assert forall|t: int| 0 <= t < s.drop_last().len() implies (
        #[trigger] s.drop_last()[t]).n == 0 by {
            assert(s.drop_last()[t] == s[t]);
        }
        lemma_sum_sq_zero(s.drop_last());
        let a = sum_sq(s.drop_last());
        let b = rat_mul(s.last(), s.last());
        assert(s.last().n * s.last().n == 0) by (nonlinear_arith)
            requires
                s.last().n == 0,
        ;
        assert(a.n * b.d + b.n * a.d == 0) by (nonlinear_arith)
            requires
                a.n == 0,
                b.n == 0,
        ;
    }
}

/// Zero-distance skip, ForceAtlas2: a node sitting exactly at the
/// coordinate-space origin is left untouched — its velocity row is unchanged,
/// whatever its mass and whatever `kg`.
pub proof fn lemma_zero_distance_skip_forceatlas2(l: Layout, i: int)
    requires
        l.wf(),
        0 <= i < l.speeds@.len(),
        forall|j: int|
            0 <= j < l.points@[i]@.len() ==> rat_eqv((#[trigger] l.points@[i]@[j])@, rat_zero()),
    ensures
        forall|j: int|
            0 <= j < l.speeds@[i]@.len() ==> #[trigger] forceatlas2_speeds(l)[i][j]
                == l.speeds@[i]@[j]@,
{
    let sv = seq_view(l.points@[i]@);
    assert forall|t: int| 0 <= t < sv.len() implies (#[trigger] sv[t]).n == 0 by {
        assert(sv[t] == (l.points@[i]@[t])@);
        lemma_sign((l.points@[i]@[t])@);
    }
    lemma_sum_sq_zero(sv);
    let s = sum_sq(sv);
    assert(s.n * s.d * (SQRT_SCALE as int) * (SQRT_SCALE as int) == 0) by (nonlinear_arith)
        requires
            s.n == 0,
    ;
    lemma_sqrt_floor_unique(0, 0);
    assert(fa2_dist(l, i).n == 0);
}

/// Converse of the zero-distance skip: a node with any position coordinate
/// away from zero has a strictly positive distance, so the ForceAtlas2 model
/// does not skip it. Skipping happens exactly at the coordinate-space origin.
pub proof fn lemma_off_origin_not_skipped(l: Layout, i: int, j1: int)
    requires
        l.wf(),
        0 <= i < l.points@.len(),
        0 <= j1 < l.points@[i]@.len(),
        !rat_eqv(l.points@[i]@[j1]@, rat_zero()),
    ensures
        fa2_dist(l, i).n > 0,
{
    let sv = seq_view(l.points@[i]@);
    assert forall|t: int| 0 <= t < sv.len() implies rat_wf(#[trigger] sv[t]) by {
        assert(sv[t] == (l.points@[i]@[t])@);
    }
    lemma_sign(l.points@[i]@[j1]@);
    assert(sv[j1] == (l.points@[i]@[j1])@);
    lemma_sum_sq_pos(sv, j1);
    lemma_sum_sq_wf(sv);
    let s = sum_sq(sv);
    let x = s.n * s.d * (SQRT_SCALE as int) * (SQRT_SCALE as int);
    assert(x >= 1) by (nonlinear_arith)
        requires
            x == s.n * s.d * (SQRT_SCALE as int) * (SQRT_SCALE as int),
            s.n >= 1,
            s.d >= 1,
            SQRT_SCALE >= 1,
    ;
    lemma_sqrt_floor_bounds(x);
    if sqrt_floor(x) == 0 {
        assert(x < (0 + 1) * (0 + 1));
    }
}

/// Mass monotonicity, ForceAtlas2 strong gravity: with position, velocity,
/// center and a positive `kg` held fixed, a node of strictly larger mass
/// receives a strictly larger velocity change, in absolute value, along every
/// dimension in which it is away from the center.
pub proof fn lemma_mass_monotonic_forceatlas2_sg(l1: Layout, l2: Layout, i: int, j: int)
    requires
        l1.wf(),
        l2.wf(),
        0 <= i < l1.speeds@.len(),
        0 <= j < l1.speeds@[i]@.len(),
        0 <= i < l2.speeds@.len(),
        0 <= j < l2.speeds@[i]@.len(),
        j < l1.points@[i]@.len(),
        j < l2.points@[i]@.len(),
        l2.points@[i]@[j] == l1.points@[i]@[j],
        l2.speeds@[i]@[j] == l1.speeds@[i]@[j],
        l2.settings.kg@ == l1.settings.kg@,
        j < l1.settings.center@.len(),
        j < l2.settings.center@.len(),
        l2.settings.center@[j] == l1.settings.center@[j],
        rat_lt(l1.masses@[i]@, l2.masses@[i]@),
        rat_lt(rat_zero(), l1.settings.kg@),
        !rat_eqv(l1.points@[i]@[j]@, l1.settings.center@[j]@),
    ensures
        rat_lt(
            rat_abs(rat_sub(forceatlas2_sg_speeds(l1)[i][j], l1.speeds@[i]@[j]@)),
            rat_abs(rat_sub(forceatlas2_sg_speeds(l2)[i][j], l2.speeds@[i]@[j]@)),
        ),
{
    let m1 = l1.masses@[i]@;
    let m2 = l2.masses@[i]@;
    let kg = l1.settings.kg@;
    let p = l1.points@[i]@[j]@;
    let c = l1.settings.center@[j]@;
    let v = l1.speeds@[i]@[j]@;
    let dl = rat_sub(p, c);
    let f1 = fa2_sg_factor(l1, i);
    let f2 = fa2_sg_factor(l2, i);
    lemma_sign(m1);
    lemma_sign(kg);
    lemma_wf_ops(m1, rat_one());
    lemma_wf_ops(rat_add(m1, rat_one()), kg);
    lemma_wf_ops(m2, rat_one());
    lemma_wf_ops(rat_add(m2, rat_one()), kg);
    lemma_wf_ops(p, c);
    assert(f1.n >= 0) by (nonlinear_arith)
        requires
            f1.n == (m1.n * 1 + 1 * m1.d) * kg.n,
            m1.n >= 0,
            m1.d > 0,
            kg.n > 0,
    ;
    assert(f1.n * f2.d < f2.n * f1.d) by (nonlinear_arith)
        requires
            f1.n == (m1.n * 1 + 1 * m1.d) * kg.n,
            f1.d == (m1.d * 1) * kg.d,
            f2.n == (m2.n * 1 + 1 * m2.d) * kg.n,
            f2.d == (m2.d * 1) * kg.d,
            m1.n * m2.d < m2.n * m1.d,
            m1.d > 0,
            m2.d > 0,
            kg.n > 0,
            kg.d > 0,
    ;
    lemma_stronger_pull(v, f1, f2, dl);
}

/// Mass monotonicity, ForceAtlas2: with position, velocity, center and a
/// positive `kg` held fixed, and the node away from the origin (`j1` names a
/// nonzero position coordinate, so the node is not skipped), a node of
/// strictly larger mass receives a strictly larger velocity change, in
/// absolute value, along every dimension in which it is away from the center.
pub proof fn lemma_mass_monotonic_forceatlas2(l1: Layout, l2: Layout, i: int, j: int, j1: int)
    requires
        l1.wf(),
        l2.wf(),
        0 <= i < l1.speeds@.len(),
        0 <= j < l1.speeds@[i]@.len(),
        0 <= i < l2.speeds@.len(),
        0 <= j < l2.speeds@[i]@.len(),
        j < l1.points@[i]@.len(),
        l2.points@[i] == l1.points@[i],
        l2.speeds@[i]@[j] == l1.speeds@[i]@[j],
        l2.settings.kg@ == l1.settings.kg@,
        j < l1.settings.center@.len(),
        j < l2.settings.center@.len(),
        l2.settings.center@[j] == l1.settings.center@[j],
        rat_lt(l1.masses@[i]@, l2.masses@[i]@),
        rat_lt(rat_zero(), l1.settings.kg@),
        0 <= j1 < l1.points@[i]@.len(),
        !rat_eqv(l1.points@[i]@[j1]@, rat_zero()),
        !rat_eqv(l1.points@[i]@[j]@, l1.settings.center@[j]@),
    ensures
        rat_lt(
            rat_abs(rat_sub(forceatlas2_speeds(l1)[i][j], l1.speeds@[i]@[j]@)),
            rat_abs(rat_sub(forceatlas2_speeds(l2)[i][j], l2.speeds@[i]@[j]@)),
        ),
{
    lemma_off_origin_not_skipped(l1, i, j1);
    let m1 = l1.masses@[i]@;
    let m2 = l2.masses@[i]@;
    let kg = l1.settings.kg@;
    let p = l1.points@[i]@[j]@;
    let c = l1.settings.center@[j]@;
    let v = l1.speeds@[i]@[j]@;
    let dl = rat_sub(p, c);
    let t1 = rat_mul(rat_add(m1, rat_one()), kg);
    let t2 = rat_mul(rat_add(m2, rat_one()), kg);
    let dist = fa2_dist(l1, i);
    assert(fa2_dist(l2, i) == dist);
    let f1 = fa2_factor(l1, i);
    let f2 = fa2_factor(l2, i);
    lemma_sign(m1);
    lemma_sign(kg);
    lemma_wf_ops(m1, rat_one());
    lemma_wf_ops(rat_add(m1, rat_one()), kg);
    lemma_wf_ops(m2, rat_one());
    lemma_wf_ops(rat_add(m2, rat_one()), kg);
    lemma_wf_ops(p, c);
    let sv = seq_view(l1.points@[i]@);
    assert forall|t: int| 0 <= t < sv.len() implies rat_wf(#[trigger] sv[t]) by {
        assert(sv[t] == (l1.points@[i]@[t])@);
    }
    lemma_sum_sq_wf(sv);
    assert(dist.d > 0) by (nonlinear_arith)
        requires
            dist.d == sum_sq(sv).d * (SQRT_SCALE as int),
            sum_sq(sv).d > 0,
            SQRT_SCALE > 0,
    ;
    assert(t1.n > 0) by (nonlinear_arith)
        requires
            t1.n == (m1.n * 1 + 1 * m1.d) * kg.n,
            m1.n >= 0,
            m1.d > 0,
            kg.n > 0,
    ;
    assert(t1.n * t2.d < t2.n * t1.d) by (nonlinear_arith)
        requires
            t1.n == (m1.n * 1 + 1 * m1.d) * kg.n,
            t1.d == (m1.d * 1) * kg.d,
            t2.n == (m2.n * 1 + 1 * m2.d) * kg.n,
            t2.d == (m2.d * 1) * kg.d,
            m1.n * m2.d < m2.n * m1.d,
            m1.d > 0,
            m2.d > 0,
            kg.n > 0,
            kg.d > 0,
    ;
    assert(f1 == (Rat { n: t1.n * dist.d, d: t1.d * dist.n }));
    assert(f2 == (Rat { n: t2.n * dist.d, d: t2.d * dist.n }));
    assert(f1.n >= 0 && f1.d > 0 && f2.d > 0) by (nonlinear_arith)
        requires
            f1.n == t1.n * dist.d,
            f1.d == t1.d * dist.n,
            f2.d == t2.d * dist.n,
            t1.n > 0,
            t1.d > 0,
            t2.d > 0,
            dist.n > 0,
            dist.d > 0,
    ;
    assert(f1.n * f2.d < f2.n * f1.d) by (nonlinear_arith)
        requires
            f1.n == t1.n * dist.d,
            f1.d == t1.d * dist.n,
            f2.n == t2.n * dist.d,
            f2.d == t2.d * dist.n,
            t1.n * t2.d < t2.n * t1.d,
            dist.n > 0,
            dist.d > 0,
    ;
    lemma_stronger_pull(v, f1, f2, dl);
}

/// Sums of squares respect pointwise value equality.
proof fn lemma_sum_sq_pointwise_eqv(s1: Seq<Rat>, s2: Seq<Rat>)
    requires
        s1.len() == s2.len(),
        forall|t: int| 0 <= t < s1.len() ==> rat_wf(#[trigger] s1[t]),
        forall|t: int| 0 <= t < s2.len() ==> rat_wf(#[trigger] s2[t]),
        forall|t: int| 0 <= t < s1.len() ==> rat_eqv(#[trigger] s1[t], s2[t]),
    ensures
        rat_eqv(sum_sq(s1), sum_sq(s2)),
    decreases s1.len(),
{
    if s1.len() > 0 {
        let r1 = s1.drop_last();
        let r2 = s2.drop_last();
        assert forall|t: int| 0 <= t < r1.len() implies rat_wf(#[trigger] r1[t]) && rat_eqv(
            r1[t],
            r2[t],
        ) by {
            assert(r1[t] == s1[t] && r2[t] == s2[t]);
        }
        assert forall|t: int| 0 <= t < r2.len() implies rat_wf(#[trigger] r2[t]) by {
            assert(r2[t] == s2[t]);
        }
        lemma_sum_sq_pointwise_eqv(r1, r2);
        lemma_sum_sq_wf(r1);
        lemma_sum_sq_wf(r2);
        lemma_wf_ops(s1.last(), s1.last());
        lemma_wf_ops(s2.last(), s2.last());
        lemma_mul_eqv(s1.last(), s1.last(), s2.last(), s2.last());
        lemma_add_eqv(
            sum_sq(r1),
            rat_mul(s1.last(), s1.last()),
            sum_sq(r2),
            rat_mul(s2.last(), s2.last()),
        );
    }
}

/// Negating every entry leaves a sum of squares unchanged.
proof fn lemma_sum_sq_neg(s: Seq<Rat>, ns: Seq<Rat>)
    requires
        ns.len() == s.len(),
        forall|t: int| 0 <= t < s.len() ==> #[trigger] ns[t] == rat_neg(s[t]),
    ensures
        sum_sq(ns) == sum_sq(s),
    decreases s.len(),
{
    if s.len() > 0 {
        assert forall|t: int| 0 <= t < s.drop_last().len() implies #[trigger] ns.drop_last()[t]
            == rat_neg(s.drop_last()[t]) by {
            assert(ns.drop_last()[t] == ns[t] && s.drop_last()[t] == s[t]);
        }
        lemma_sum_sq_neg(s.drop_last(), ns.drop_last());
        let xn = s.last().n;
        assert((-xn) * (-xn) == xn * xn) by (nonlinear_arith);
        assert(rat_mul(ns.last(), ns.last()) == rat_mul(s.last(), s.last()));
    }
}

/// Scaling every entry by `f` scales a sum of squares by `f * f`.
proof fn lemma_sum_sq_scaled(f: Rat, s: Seq<Rat>, m: Seq<Rat>)
    requires
        rat_wf(f),
        m.len() == s.len(),
        forall|t: int| 0 <= t < s.len() ==> rat_wf(#[trigger] s[t]),
        forall|t: int| 0 <= t < s.len() ==> #[trigger] m[t] == rat_mul(f, s[t]),
    ensures
        rat_eqv(sum_sq(m), rat_mul(rat_mul(f, f), sum_sq(s))),
    decreases s.len(),
{
    let ff = rat_mul(f, f);
    lemma_wf_ops(f, f);
    assert forall|t: int| 0 <= t < m.len() implies rat_wf(#[trigger] m[t]) by {
        lemma_wf_ops(f, s[t]);
    }
    if s.len() == 0 {
        assert((f.n * f.n) * 0 == 0) by (nonlinear_arith);
        assert(0 * ((f.d * f.d) * 1) == 0) by (nonlinear_arith);
        assert(((f.n * f.n) * 0) * 1 == 0) by (nonlinear_arith);
    } else {
        let rs = s.drop_last();
        let rm = m.drop_last();
        assert forall|t: int| 0 <= t < rs.len() implies rat_wf(#[trigger] rs[t]) && rm[t]
            == rat_mul(f, rs[t]) by {
            assert(rs[t] == s[t] && rm[t] == m[t]);
        }
        lemma_sum_sq_scaled(f, rs, rm);
        let asq = sum_sq(rs);
        let bsq = rat_mul(s.last(), s.last());
        let xn = s.last().n;
        let xd = s.last().d;
        assert((f.n * xn) * (f.n * xn) == (f.n * f.n) * (xn * xn)) by (nonlinear_arith);
        assert((f.d * xd) * (f.d * xd) == (f.d * f.d) * (xd * xd)) by (nonlinear_arith);
        assert(m.last() == rat_mul(f, s.last()));
        assert(rat_mul(m.last(), m.last()) == rat_mul(ff, bsq));
        assert forall|t: int| 0 <= t < rm.len() implies rat_wf(#[trigger] rm[t]) by {
            assert(rm[t] == m[t]);
        }
        lemma_sum_sq_wf(rm);
        lemma_sum_sq_wf(rs);
        lemma_wf_ops(m.last(), m.last());
        lemma_wf_ops(ff, asq);
        lemma_wf_ops(s.last(), s.last());
        lemma_wf_ops(ff, bsq);
        lemma_add_eqv(sum_sq(rm), rat_mul(m.last(), m.last()), rat_mul(ff, asq), rat_mul(ff, bsq));
        lemma_mul_distributes(ff, asq, bsq);
        lemma_wf_ops(rat_mul(ff, asq), rat_mul(ff, bsq));
        lemma_sum_sq_wf(m);
        lemma_wf_ops(asq, bsq);
        lemma_wf_ops(ff, rat_add(asq, bsq));
        lemma_eqv_trans(
            sum_sq(m),
            rat_add(rat_mul(ff, asq), rat_mul(ff, bsq)),
            rat_mul(ff, rat_add(asq, bsq)),
        );
    }
}

/// A sum of squares with one entry away from zero is strictly positive.
proof fn lemma_sum_sq_pos(s: Seq<Rat>, j0: int)
    requires
        forall|t: int| 0 <= t < s.len() ==> rat_wf(#[trigger] s[t]),
        0 <= j0 < s.len(),
        s[j0].n != 0,
    ensures
        sum_sq(s).n > 0,
    decreases s.len(),
{
    let rest = s.drop_last();
    assert forall|t: int| 0 <= t < rest.len() implies rat_wf(#[trigger] rest[t]) by {
        assert(rest[t] == s[t]);
    }
    lemma_sum_sq_wf(rest);
    let a = sum_sq(rest);
    let b = rat_mul(s.last(), s.last());
    let xn = s.last().n;
    let xd = s.last().d;
    assert(xn * xn >= 0 && xd * xd > 0) by (nonlinear_arith)
        requires
            xd > 0,
    ;
    if j0 == s.len() - 1 {
        assert(xn * xn > 0) by (nonlinear_arith)
            requires
                xn != 0,
        ;
        assert(a.n * b.d + b.n * a.d > 0) by (nonlinear_arith)
            requires
                a.n >= 0,
                a.d > 0,
                b.n > 0,
                b.d > 0,
        ;
    } else {
        assert(rest[j0] == s[j0]);
        lemma_sum_sq_pos(rest, j0);
        assert(a.n * b.d + b.n * a.d > 0) by (nonlinear_arith)
            requires
                a.n > 0,
                a.d > 0,
                b.n >= 0,
                b.d > 0,
        ;
    }
}

/// The per-dimension velocity change of node `i`, between the velocities a
/// pass leaves behind and those the layout held before.
pub open spec fn delta_row(newer: Seq<Seq<Rat>>, l: Layout, i: int) -> Seq<Rat> {
    Seq::new(l.speeds@[i]@.len(), |j: int| rat_sub(newer[i][j], l.speeds@[i]@[j]@))
}

/// Core of mass monotonicity: of two pulls of the shared shape
/// `speed -= factor * delta` over one velocity row, the one with the strictly
/// larger nonnegative factor leaves a velocity change of strictly larger
/// squared magnitude, provided some dimension is away from the center.
proof fn lemma_row_magnitude_lt(
    vrow: Seq<Rat>,
    drow1: Seq<Rat>,
    drow2: Seq<Rat>,
    dls: Seq<Rat>,
    f1: Rat,
    f2: Rat,
    j0: int,
)
    requires
        drow1.len() == dls.len(),
        drow2.len() == dls.len(),
        vrow.len() == dls.len(),
        forall|t: int| 0 <= t < vrow.len() ==> rat_wf(#[trigger] vrow[t]),
        forall|t: int| 0 <= t < dls.len() ==> rat_wf(#[trigger] dls[t]),
        forall|t: int|
            0 <= t < dls.len() ==> #[trigger] drow1[t] == rat_sub(
                rat_sub(vrow[t], rat_mul(f1, dls[t])),
                vrow[t],
            ),
        forall|t: int|
            0 <= t < dls.len() ==> #[trigger] drow2[t] == rat_sub(
                rat_sub(vrow[t], rat_mul(f2, dls[t])),
                vrow[t],
            ),
        rat_wf(f1),
        rat_wf(f2),
        f1.n >= 0,
        rat_lt(f1, f2),
        0 <= j0 < dls.len(),
        dls[j0].n != 0,
    ensures
        rat_lt(sum_sq(drow1), sum_sq(drow2)),
{
    let n = dls.len() as int;
    let m1 = Seq::new(n as nat, |t: int| rat_mul(f1, dls[t]));
    let m2 = Seq::new(n as nat, |t: int| rat_mul(f2, dls[t]));
    let nm1 = Seq::new(n as nat, |t: int| rat_neg(rat_mul(f1, dls[t])));
    let nm2 = Seq::new(n as nat, |t: int| rat_neg(rat_mul(f2, dls[t])));
    assert forall|t: int| 0 <= t < n implies rat_wf(#[trigger] drow1[t]) && rat_eqv(
        drow1[t],
        nm1[t],
    ) by {
        lemma_wf_ops(f1, dls[t]);
        lemma_wf_ops(vrow[t], rat_mul(f1, dls[t]));
        lemma_wf_ops(rat_sub(vrow[t], rat_mul(f1, dls[t])), vrow[t]);
        lemma_sub_then_delta(vrow[t], rat_mul(f1, dls[t]));
    }
    assert forall|t: int| 0 <= t < n implies rat_wf(#[trigger] drow2[t]) && rat_eqv(
        drow2[t],
        nm2[t],
    ) by {
        lemma_wf_ops(f2, dls[t]);
        lemma_wf_ops(vrow[t], rat_mul(f2, dls[t]));
        lemma_wf_ops(rat_sub(vrow[t], rat_mul(f2, dls[t])), vrow[t]);
        lemma_sub_then_delta(vrow[t], rat_mul(f2, dls[t]));
    }
    assert forall|t: int| 0 <= t < n implies rat_wf(#[trigger] nm1[t]) by {
        lemma_wf_ops(f1, dls[t]);
    }
    assert forall|t: int| 0 <= t < n implies rat_wf(#[trigger] nm2[t]) by {
        lemma_wf_ops(f2, dls[t]);
    }
    lemma_sum_sq_pointwise_eqv(drow1, nm1);
    lemma_sum_sq_pointwise_eqv(drow2, nm2);
    assert forall|t: int| 0 <= t < n implies #[trigger] nm1[t] == rat_neg(m1[t]) && nm2[t]
        == rat_neg(m2[t]) && m1[t] == rat_mul(f1, dls[t]) && m2[t] == rat_mul(f2, dls[t]) by {}
    lemma_sum_sq_neg(m1, nm1);
    lemma_sum_sq_neg(m2, nm2);
    lemma_sum_sq_scaled(f1, dls, m1);
    lemma_sum_sq_scaled(f2, dls, m2);
    let ff1 = rat_mul(f1, f1);
    let ff2 = rat_mul(f2, f2);
    let ss = sum_sq(dls);
    lemma_sum_sq_wf(dls);
    lemma_sum_sq_pos(dls, j0);
    lemma_sq_lt(f1, f2);
    lemma_wf_ops(f1, f1);
    lemma_wf_ops(f2, f2);
    assert((ff1.n * ss.n) * (ff2.d * ss.d) < (ff2.n * ss.n) * (ff1.d * ss.d)) by (nonlinear_arith)
        requires
            ff1.n * ff2.d < ff2.n * ff1.d,
            ss.n > 0,
            ss.d > 0,
            ff1.d > 0,
            ff2.d > 0,
    ;
    assert(rat_lt(rat_mul(ff1, ss), rat_mul(ff2, ss)));
    lemma_sum_sq_wf(drow1);
    lemma_sum_sq_wf(drow2);
    lemma_sum_sq_wf(nm1);
    lemma_sum_sq_wf(nm2);
    lemma_wf_ops(ff1, ss);
    lemma_wf_ops(ff2, ss);
    lemma_eqv_trans(sum_sq(drow1), sum_sq(nm1), rat_mul(ff1, ss));
    lemma_eqv_trans(sum_sq(drow2), sum_sq(nm2), rat_mul(ff2, ss));
    lemma_lt_eqv(rat_mul(ff1, ss), rat_mul(ff2, ss), sum_sq(drow1), sum_sq(drow2));
}

/// Mass monotonicity in magnitude, ForceAtlas2 strong gravity: with
/// everything but the node's mass held fixed, and the node away from the
/// center in some dimension, a strictly larger mass yields a velocity change
/// of strictly larger squared magnitude.
pub proof fn lemma_mass_monotonic_magnitude_forceatlas2_sg(l1: Layout, l2: Layout, i: int, j0: int)
    requires
        l1.wf(),
        l2.wf(),
        0 <= i < l1.speeds@.len(),
        0 <= i < l2.speeds@.len(),
        l2.points@[i] == l1.points@[i],
        l2.speeds@[i] == l1.speeds@[i],
        l2.settings == l1.settings,
        l1.points@[i]@.len() <= l1.settings.center@.len(),
        0 <= j0 < l1.points@[i]@.len(),
        !rat_eqv(l1.points@[i]@[j0]@, l1.settings.center@[j0]@),
        rat_lt(l1.masses@[i]@, l2.masses@[i]@),
        rat_lt(rat_zero(), l1.settings.kg@),
    ensures
        rat_lt(
            sum_sq(delta_row(forceatlas2_sg_speeds(l1), l1, i)),
            sum_sq(delta_row(forceatlas2_sg_speeds(l2), l2, i)),
        ),
{
    let dim = l1.speeds@[i]@.len() as int;
    let vrow = Seq::new(dim as nat, |t: int| l1.speeds@[i]@[t]@);
    let dls = Seq::new(
        dim as nat,
        |t: int| rat_sub(l1.points@[i]@[t]@, l1.settings.center@[t]@),
    );
    let m1 = l1.masses@[i]@;
    let m2 = l2.masses@[i]@;
    let kg = l1.settings.kg@;
    let f1 = fa2_sg_factor(l1, i);
    let f2 = fa2_sg_factor(l2, i);
    lemma_sign(m1);
    lemma_sign(kg);
    lemma_wf_ops(m1, rat_one());
    lemma_wf_ops(rat_add(m1, rat_one()), kg);
    lemma_wf_ops(m2, rat_one());
    lemma_wf_ops(rat_add(m2, rat_one()), kg);
    assert(f1.n >= 0) by (nonlinear_arith)
        requires
            f1.n == (m1.n * 1 + 1 * m1.d) * kg.n,
            m1.n >= 0,
            m1.d > 0,
            kg.n > 0,
    ;
    assert(f1.n * f2.d < f2.n * f1.d) by (nonlinear_arith)
        requires
            f1.n == (m1.n * 1 + 1 * m1.d) * kg.n,
            f1.d == (m1.d * 1) * kg.d,
            f2.n == (m2.n * 1 + 1 * m2.d) * kg.n,
            f2.d == (m2.d * 1) * kg.d,
            m1.n * m2.d < m2.n * m1.d,
            m1.d > 0,
            m2.d > 0,
            kg.n > 0,
            kg.d > 0,
    ;
    let d1 = delta_row(forceatlas2_sg_speeds(l1), l1, i);
    let d2 = delta_row(forceatlas2_sg_speeds(l2), l2, i);
    assert forall|t: int| 0 <= t < dim implies #[trigger] d1[t] == rat_sub(
        rat_sub(vrow[t], rat_mul(f1, dls[t])),
        vrow[t],
    ) && d2[t] == rat_sub(rat_sub(vrow[t], rat_mul(f2, dls[t])), vrow[t]) by {}
    assert forall|t: int| 0 <= t < dim implies rat_wf(#[trigger] vrow[t]) by {}
    assert forall|t: int| 0 <= t < dim implies rat_wf(#[trigger] dls[t]) by {
        lemma_wf_ops(l1.points@[i]@[t]@, l1.settings.center@[t]@);
    }
    lemma_row_magnitude_lt(vrow, d1, d2, dls, f1, f2, j0);
}

/// Mass monotonicity in magnitude, ForceAtlas2: with everything but the
/// node's mass held fixed, the node away from the origin (`j1` names a
/// nonzero position coordinate, so the node is not skipped) and away from the
/// center in some dimension, a strictly larger mass yields a velocity change
/// of strictly larger squared magnitude.
pub proof fn lemma_mass_monotonic_magnitude_forceatlas2(
    l1: Layout,
    l2: Layout,
    i: int,
    j0: int,
    j1: int,
)
    requires
        l1.wf(),
        l2.wf(),
        0 <= i < l1.speeds@.len(),
        0 <= i < l2.speeds@.len(),
        l2.points@[i] == l1.points@[i],
        l2.speeds@[i] == l1.speeds@[i],
        l2.settings == l1.settings,
        l1.points@[i]@.len() <= l1.settings.center@.len(),
        0 <= j0 < l1.points@[i]@.len(),
        !rat_eqv(l1.points@[i]@[j0]@, l1.settings.center@[j0]@),
        rat_lt(l1.masses@[i]@, l2.masses@[i]@),
        rat_lt(rat_zero(), l1.settings.kg@),
        0 <= j1 < l1.points@[i]@.len(),
        !rat_eqv(l1.points@[i]@[j1]@, rat_zero()),
    ensures
        rat_lt(
            sum_sq(delta_row(forceatlas2_speeds(l1), l1, i)),
            sum_sq(delta_row(forceatlas2_speeds(l2), l2, i)),
        ),
{
    lemma_off_origin_not_skipped(l1, i, j1);
    let dim = l1.speeds@[i]@.len() as int;
    let vrow = Seq::new(dim as nat, |t: int| l1.speeds@[i]@[t]@);
    let dls = Seq::new(
        dim as nat,
        |t: int| rat_sub(l1.points@[i]@[t]@, l1.settings.center@[t]@),
    );
    let m1 = l1.masses@[i]@;
    let m2 = l2.masses@[i]@;
    let kg = l1.settings.kg@;
    let t1 = rat_mul(rat_add(m1, rat_one()), kg);
    let t2 = rat_mul(rat_add(m2, rat_one()), kg);
    let dist = fa2_dist(l1, i);
    assert(fa2_dist(l2, i) == dist);
    let f1 = fa2_factor(l1, i);
    let f2 = fa2_factor(l2, i);
    lemma_sign(m1);
    lemma_sign(kg);
    lemma_wf_ops(m1, rat_one());
    lemma_wf_ops(rat_add(m1, rat_one()), kg);
    lemma_wf_ops(m2, rat_one());
    lemma_wf_ops(rat_add(m2, rat_one()), kg);
    let sv = seq_view(l1.points@[i]@);
    assert forall|t: int| 0 <= t < sv.len() implies rat_wf(#[trigger] sv[t]) by {
        assert(sv[t] == (l1.points@[i]@[t])@);
    }
    lemma_sum_sq_wf(sv);
    assert(dist.d > 0) by (nonlinear_arith)
        requires
            dist.d == sum_sq(sv).d * (SQRT_SCALE as int),
            sum_sq(sv).d > 0,
            SQRT_SCALE > 0,
    ;
    assert(t1.n > 0) by (nonlinear_arith)
        requires
            t1.n == (m1.n * 1 + 1 * m1.d) * kg.n,
            m1.n >= 0,
            m1.d > 0,
            kg.n > 0,
    ;
    assert(t1.n * t2.d < t2.n * t1.d) by (nonlinear_arith)
        requires
            t1.n == (m1.n * 1 + 1 * m1.d) * kg.n,
            t1.d == (m1.d * 1) * kg.d,
            t2.n == (m2.n * 1 + 1 * m2.d) * kg.n,
            t2.d == (m2.d * 1) * kg.d,
            m1.n * m2.d < m2.n * m1.d,
            m1.d > 0,
            m2.d > 0,
            kg.n > 0,
            kg.d > 0,
    ;
    assert(f1 == (Rat { n: t1.n * dist.d, d: t1.d * dist.n }));
    assert(f2 == (Rat { n: t2.n * dist.d, d: t2.d * dist.n }));
    assert(f1.n >= 0 && f1.d > 0 && f2.d > 0) by (nonlinear_arith)
        requires
            f1.n == t1.n * dist.d,
            f1.d == t1.d * dist.n,
            f2.d == t2.d * dist.n,
            t1.n > 0,
            t1.d > 0,
            t2.d > 0,
            dist.n > 0,
            dist.d > 0,
    ;
    assert(f1.n * f2.d < f2.n * f1.d) by (nonlinear_arith)
        requires
            f1.n == t1.n * dist.d,
            f1.d == t1.d * dist.n,
            f2.n == t2.n * dist.d,
            f2.d == t2.d * dist.n,
            t1.n * t2.d < t2.n * t1.d,
            dist.n > 0,
            dist.d > 0,
    ;
    let d1 = delta_row(forceatlas2_speeds(l1), l1, i);
    let d2 = delta_row(forceatlas2_speeds(l2), l2, i);
    assert forall|t: int| 0 <= t < dim implies #[trigger] d1[t] == rat_sub(
        rat_sub(vrow[t], rat_mul(f1, dls[t])),
        vrow[t],
    ) && d2[t] == rat_sub(rat_sub(vrow[t], rat_mul(f2, dls[t])), vrow[t]) by {}
    assert forall|t: int| 0 <= t < dim implies rat_wf(#[trigger] vrow[t]) by {}
    assert forall|t: int| 0 <= t < dim implies rat_wf(#[trigger] dls[t]) by {
        lemma_wf_ops(l1.points@[i]@[t]@, l1.settings.center@[t]@);
    }
    lemma_row_magnitude_lt(vrow, d1, d2, dls, f1, f2, j0);
}

/// Linear scaling in `kg`, Fruchterman-Reingold: scaling `kg` by any factor
/// (doubling it, say) scales every node's velocity change by the same factor,
/// along every dimension.
pub proof fn lemma_kg_scaling_fruchterman(l1: Layout, l2: Layout, s: Rat, i: int, j: int)
    requires
        l1.wf(),
        l2.wf(),
        rat_wf(s),
        0 <= i < l1.speeds@.len(),
        0 <= j < l1.speeds@[i]@.len(),
        0 <= i < l2.speeds@.len(),
        0 <= j < l2.speeds@[i]@.len(),
        j < l1.points@[i]@.len(),
        j < l2.points@[i]@.len(),
        l2.points@[i]@[j] == l1.points@[i]@[j],
        l2.speeds@[i]@[j] == l1.speeds@[i]@[j],
        j < l1.settings.center@.len(),
        j < l2.settings.center@.len(),
        l2.settings.center@[j] == l1.settings.center@[j],
        l2.settings.ka@ == l1.settings.ka@,
        rat_eqv(l2.settings.kg@, rat_mul(s, l1.settings.kg@)),
    ensures
        rat_eqv(
            rat_sub(fruchterman_speeds(l2)[i][j], l2.speeds@[i]@[j]@),
            rat_mul(s, rat_sub(fruchterman_speeds(l1)[i][j], l1.speeds@[i]@[j]@)),
        ),
{
    let ka = l1.settings.ka@;
    let kg1 = l1.settings.kg@;
    let kg2 = l2.settings.kg@;
    let a = rat_mul(rat_centi(), ka);
    let gf1 = fruchterman_factor(l1);
    let gf2 = fruchterman_factor(l2);
    lemma_wf_ops(rat_centi(), ka);
    lemma_wf_ops(a, kg1);
    lemma_wf_ops(a, kg2);
    lemma_wf_ops(s, kg1);
    lemma_wf_ops(a, rat_mul(s, kg1));
    lemma_wf_ops(s, gf1);
    lemma_mul_eqv(a, kg2, a, rat_mul(s, kg1));
    let u = rat_mul(a, rat_mul(s, kg1));
    let w = rat_mul(s, gf1);
    assert(rat_eqv(u, w)) by (nonlinear_arith)
        requires
            u.n == a.n * (s.n * kg1.n),
            u.d == a.d * (s.d * kg1.d),
            w.n == s.n * (a.n * kg1.n),
            w.d == s.d * (a.d * kg1.d),
    ;
    lemma_eqv_trans(gf2, u, w);
    let p = l1.points@[i]@[j]@;
    let c = l1.settings.center@[j]@;
    let v = l1.speeds@[i]@[j]@;
    lemma_wf_ops(p, c);
    lemma_scaled_pull(v, gf1, gf2, s, rat_sub(p, c));
}

/// Linear scaling in `ka`, Fruchterman-Reingold: scaling `ka` by any factor
/// likewise scales every node's velocity change by the same factor, along
/// every dimension.
pub proof fn lemma_ka_scaling_fruchterman(l1: Layout, l2: Layout, s: Rat, i: int, j: int)
    requires
        l1.wf(),
        l2.wf(),
        rat_wf(s),
        0 <= i < l1.speeds@.len(),
        0 <= j < l1.speeds@[i]@.len(),
        0 <= i < l2.speeds@.len(),
        0 <= j < l2.speeds@[i]@.len(),
        j < l1.points@[i]@.len(),
        j < l2.points@[i]@.len(),
        l2.points@[i]@[j] == l1.points@[i]@[j],
        l2.speeds@[i]@[j] == l1.speeds@[i]@[j],
        j < l1.settings.center@.len(),
        j < l2.settings.center@.len(),
        l2.settings.center@[j] == l1.settings.center@[j],
        l2.settings.kg@ == l1.settings.kg@,
        rat_eqv(l2.settings.ka@, rat_mul(s, l1.settings.ka@)),
    ensures
        rat_eqv(
            rat_sub(fruchterman_speeds(l2)[i][j], l2.speeds@[i]@[j]@),
            rat_mul(s, rat_sub(fruchterman_speeds(l1)[i][j], l1.speeds@[i]@[j]@)),
        ),
{
    let ka1 = l1.settings.ka@;
    let ka2 = l2.settings.ka@;
    let kg = l1.settings.kg@;
    let gf1 = fruchterman_factor(l1);
    let gf2 = fruchterman_factor(l2);
    lemma_wf_ops(rat_centi(), ka1);
    lemma_wf_ops(rat_centi(), ka2);
    lemma_wf_ops(rat_mul(rat_centi(), ka1), kg);
    lemma_wf_ops(rat_mul(rat_centi(), ka2), kg);
    lemma_wf_ops(s, ka1);
    lemma_wf_ops(rat_centi(), rat_mul(s, ka1));
    lemma_wf_ops(rat_mul(rat_centi(), rat_mul(s, ka1)), kg);
    lemma_wf_ops(s, gf1);
    lemma_mul_eqv(rat_centi(), ka2, rat_centi(), rat_mul(s, ka1));
    lemma_mul_eqv(
        rat_mul(rat_centi(), ka2),
        kg,
        rat_mul(rat_centi(), rat_mul(s, ka1)),
        kg,
    );
    let u = rat_mul(rat_mul(rat_centi(), rat_mul(s, ka1)), kg);
    let w = rat_mul(s, gf1);
    assert(rat_eqv(u, w)) by (nonlinear_arith)
        requires
            u.n == (1 * (s.n * ka1.n)) * kg.n,
            u.d == (100 * (s.d * ka1.d)) * kg.d,
            w.n == s.n * ((1 * ka1.n) * kg.n),
            w.d == s.d * ((100 * ka1.d) * kg.d),
    ;
    lemma_eqv_trans(gf2, u, w);
    let p = l1.points@[i]@[j]@;
    let c = l1.settings.center@[j]@;
    let v = l1.speeds@[i]@[j]@;
    lemma_wf_ops(p, c);
    lemma_scaled_pull(v, gf1, gf2, s, rat_sub(p, c));
}

} // verus!
