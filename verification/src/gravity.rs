//! The four gravity models.
//!
//! Each model updates every node's velocity in place by subtracting a pull
//! toward the configured center: for node `i` and dimension `j`,
//! `speed[i][j] -= factor * (point[i][j] - center[j])`, where `factor`
//! depends on the model. The exact new velocities are pinned by the
//! `*_speeds` spec functions; the `*_fits` predicates state the machine
//! limits (every intermediate product fits in `i128`) under which the pass
//! is possible at all.

use vstd::prelude::*;

use crate::coord::{
    fits_add, fits_div, fits_mul, fits_sqrt, fits_sub, rat_add, rat_div, rat_eqv, rat_lt, rat_mul,
    rat_one, rat_sqrt, rat_sub, rat_wf, rat_zero, Coord, Rat,
};
use crate::layout::{grid_view, seq_view, GravityError, Layout};

verus! {

/// The closed set of gravity models a driver can select.
#[derive(Clone, Copy, Debug, PartialEq, Eq, Structural)]
pub enum GravityModel {
    /// Linear pull divided by node mass.
    Force2,
    /// Damped, mass-independent pull.
    Fruchterman,
    /// Mass-weighted pull attenuated by the node's distance from the origin.
    ForceAtlas2,
    /// Mass-weighted pull with no distance attenuation.
    ForceAtlas2Sg,
}

/// The damping constant of the Fruchterman-Reingold model, exactly `1/100`.
pub open spec fn rat_centi() -> Rat {
    Rat { n: 1, d: 100 }
}

// ---------------------------------------------------------------------------
// Linear model ("force2"): speed -= kg * (point - center) / mass
// ---------------------------------------------------------------------------

pub open spec fn force2_speed_at(l: Layout, i: int, j: int) -> Rat {
    rat_sub(
        l.speeds@[i]@[j]@,
        rat_div(
            rat_mul(l.settings.kg@, rat_sub(l.points@[i]@[j]@, l.settings.center@[j]@)),
            l.masses@[i]@,
        ),
    )
}

pub open spec fn force2_fits_at(l: Layout, i: int, j: int) -> bool {
    let p = l.points@[i]@[j]@;
    let c = l.settings.center@[j]@;
    let v = l.speeds@[i]@[j]@;
    let dl = rat_sub(p, c);
    let t = rat_mul(l.settings.kg@, dl);
    let q = rat_div(t, l.masses@[i]@);
    &&& fits_sub(p, c)
    &&& fits_mul(l.settings.kg@, dl)
    &&& fits_div(t, l.masses@[i]@)
    &&& fits_sub(v, q)
}

pub open spec fn force2_fits(l: Layout) -> bool {
    forall|i: int, j: int|
        0 <= i < l.speeds@.len() && 0 <= j < l.speeds@[i]@.len() ==> #[trigger] force2_fits_at(
            l,
            i,
            j,
        )
}

/// The velocities after one linear-model pass.
pub open spec fn force2_speeds(l: Layout) -> Seq<Seq<Rat>> {
    Seq::new(
        l.speeds@.len(),
        |i: int| Seq::new(l.speeds@[i]@.len(), |j: int| force2_speed_at(l, i, j)),
    )
}

// ---------------------------------------------------------------------------
// Fruchterman-Reingold model: speed -= (0.01 * ka * kg) * (point - center)
// ---------------------------------------------------------------------------

/// The uniform factor of the Fruchterman-Reingold model.
pub open spec fn fruchterman_factor(l: Layout) -> Rat {
    rat_mul(rat_mul(rat_centi(), l.settings.ka@), l.settings.kg@)
}

pub open spec fn fruchterman_speed_at(l: Layout, i: int, j: int) -> Rat {
    rat_sub(
        l.speeds@[i]@[j]@,
        rat_mul(fruchterman_factor(l), rat_sub(l.points@[i]@[j]@, l.settings.center@[j]@)),
    )
}

pub open spec fn fruchterman_fits_at(l: Layout, i: int, j: int) -> bool {
    let p = l.points@[i]@[j]@;
    let c = l.settings.center@[j]@;
    let v = l.speeds@[i]@[j]@;
    let dl = rat_sub(p, c);
    let t = rat_mul(fruchterman_factor(l), dl);
    &&& fits_sub(p, c)
    &&& fits_mul(fruchterman_factor(l), dl)
    &&& fits_sub(v, t)
}

pub open spec fn fruchterman_fits(l: Layout) -> bool {
    &&& fits_mul(rat_centi(), l.settings.ka@)
    &&& fits_mul(rat_mul(rat_centi(), l.settings.ka@), l.settings.kg@)
    &&& forall|i: int, j: int|
        0 <= i < l.speeds@.len() && 0 <= j < l.speeds@[i]@.len()
            ==> #[trigger] fruchterman_fits_at(l, i, j)
}

/// The velocities after one Fruchterman-Reingold pass.
pub open spec fn fruchterman_speeds(l: Layout) -> Seq<Seq<Rat>> {
    Seq::new(
        l.speeds@.len(),
        |i: int| Seq::new(l.speeds@[i]@.len(), |j: int| fruchterman_speed_at(l, i, j)),
    )
}

// ---------------------------------------------------------------------------
// ForceAtlas2 model: speed -= ((mass + 1) * kg / |point|) * (point - center),
// skipping nodes whose distance from the origin is zero
// ---------------------------------------------------------------------------

/// The sum of the squares of a vector's entries, folded left to right.
pub open spec fn sum_sq(s: Seq<Rat>) -> Rat
    decreases s.len(),
{
    if s.len() == 0 {
        rat_zero()
    } else {
        rat_add(sum_sq(s.drop_last()), rat_mul(s.last(), s.last()))
    }
}

pub open spec fn sum_sq_fits(s: Seq<Rat>) -> bool
    decreases s.len(),
{
    s.len() == 0 || {
        &&& sum_sq_fits(s.drop_last())
        &&& fits_mul(s.last(), s.last())
        &&& fits_add(sum_sq(s.drop_last()), rat_mul(s.last(), s.last()))
    }
}

/// The node's distance from the coordinate-space origin (not from the
/// center), as the floored square root of the sum of squares.
pub open spec fn fa2_dist(l: Layout, i: int) -> Rat {
    rat_sqrt(sum_sq(seq_view(l.points@[i]@)))
}

pub open spec fn fa2_factor(l: Layout, i: int) -> Rat {
    rat_div(rat_mul(rat_add(l.masses@[i]@, rat_one()), l.settings.kg@), fa2_dist(l, i))
}

/// A node at distance zero is skipped outright: its velocity row is left as
/// it was.
pub open spec fn forceatlas2_speed_at(l: Layout, i: int, j: int) -> Rat {
    if fa2_dist(l, i).n == 0 {
        l.speeds@[i]@[j]@
    } else {
        rat_sub(
            l.speeds@[i]@[j]@,
            rat_mul(fa2_factor(l, i), rat_sub(l.points@[i]@[j]@, l.settings.center@[j]@)),
        )
    }
}

pub open spec fn fa2_node_fits(l: Layout, i: int) -> bool {
    let s = sum_sq(seq_view(l.points@[i]@));
    &&& sum_sq_fits(seq_view(l.points@[i]@))
    &&& fits_sqrt(s)
    &&& (fa2_dist(l, i).n != 0 ==> {
        let mk = rat_add(l.masses@[i]@, rat_one());
        let t = rat_mul(mk, l.settings.kg@);
        &&& fits_add(l.masses@[i]@, rat_one())
        &&& fits_mul(mk, l.settings.kg@)
        &&& fits_div(t, fa2_dist(l, i))
    })
}

pub open spec fn fa2_dim_fits(l: Layout, i: int, j: int) -> bool {
    fa2_dist(l, i).n != 0 ==> {
        let p = l.points@[i]@[j]@;
        let c = l.settings.center@[j]@;
        let v = l.speeds@[i]@[j]@;
        let dl = rat_sub(p, c);
        let t = rat_mul(fa2_factor(l, i), dl);
        &&& fits_sub(p, c)
        &&& fits_mul(fa2_factor(l, i), dl)
        &&& fits_sub(v, t)
    }
}

pub open spec fn forceatlas2_fits(l: Layout) -> bool {
    &&& forall|i: int| 0 <= i < l.speeds@.len() ==> #[trigger] fa2_node_fits(l, i)
    &&& forall|i: int, j: int|
        0 <= i < l.speeds@.len() && 0 <= j < l.speeds@[i]@.len() ==> #[trigger] fa2_dim_fits(
            l,
            i,
            j,
        )
}

/// The velocities after one ForceAtlas2 pass.
pub open spec fn forceatlas2_speeds(l: Layout) -> Seq<Seq<Rat>> {
    Seq::new(
        l.speeds@.len(),
        |i: int| Seq::new(l.speeds@[i]@.len(), |j: int| forceatlas2_speed_at(l, i, j)),
    )
}

// ---------------------------------------------------------------------------
// ForceAtlas2 strong gravity: speed -= ((mass + 1) * kg) * (point - center)
// ---------------------------------------------------------------------------

pub open spec fn fa2_sg_factor(l: Layout, i: int) -> Rat {
    rat_mul(rat_add(l.masses@[i]@, rat_one()), l.settings.kg@)
}

pub open spec fn forceatlas2_sg_speed_at(l: Layout, i: int, j: int) -> Rat {
    rat_sub(
        l.speeds@[i]@[j]@,
        rat_mul(fa2_sg_factor(l, i), rat_sub(l.points@[i]@[j]@, l.settings.center@[j]@)),
    )
}

pub open spec fn forceatlas2_sg_fits_at(l: Layout, i: int, j: int) -> bool {
    let p = l.points@[i]@[j]@;
    let c = l.settings.center@[j]@;
    let v = l.speeds@[i]@[j]@;
    let dl = rat_sub(p, c);
    let t = rat_mul(fa2_sg_factor(l, i), dl);
    &&& fits_add(l.masses@[i]@, rat_one())
    &&& fits_mul(rat_add(l.masses@[i]@, rat_one()), l.settings.kg@)
    &&& fits_sub(p, c)
    &&& fits_mul(fa2_sg_factor(l, i), dl)
    &&& fits_sub(v, t)
}

pub open spec fn forceatlas2_sg_fits(l: Layout) -> bool {
    forall|i: int, j: int|
        0 <= i < l.speeds@.len() && 0 <= j < l.speeds@[i]@.len()
            ==> #[trigger] forceatlas2_sg_fits_at(l, i, j)
}

/// The velocities after one strong-gravity pass.
pub open spec fn forceatlas2_sg_speeds(l: Layout) -> Seq<Seq<Rat>> {
    Seq::new(
        l.speeds@.len(),
        |i: int| Seq::new(l.speeds@[i]@.len(), |j: int| forceatlas2_sg_speed_at(l, i, j)),
    )
}

/// Every prefix of a vector whose sum of squares stays in bounds stays in
/// bounds itself.
pub proof fn lemma_sum_sq_fits_prefix(s: Seq<Rat>, k: int)
    requires
        sum_sq_fits(s),
        0 <= k <= s.len(),
    ensures
        sum_sq_fits(s.take(k)),
    decreases s.len(),
{
    if k == s.len() {
        assert(s.take(k) =~= s);
    } else {
        lemma_sum_sq_fits_prefix(s.drop_last(), k);
        assert(s.drop_last().take(k) =~= s.take(k));
    }
}

/// A sum of squares of well-formed fractions is well-formed and nonnegative.
pub proof fn lemma_sum_sq_wf(s: Seq<Rat>)
    requires
        forall|t: int| 0 <= t < s.len() ==> rat_wf(#[trigger] s[t]),
    ensures
        rat_wf(sum_sq(s)),
        sum_sq(s).n >= 0,
    decreases s.len(),
{
    if s.len() > 0 {
        assert forall|t: int| 0 <= t < s.drop_last().len() implies rat_wf(
            #[trigger] s.drop_last()[t],
        ) by {
            assert(s.drop_last()[t] == s[t]);
        }
        lemma_sum_sq_wf(s.drop_last());
        let a = sum_sq(s.drop_last());
        let b = rat_mul(s.last(), s.last());
        let ln = s.last().n;
        let ld = s.last().d;
        assert(ln * ln >= 0 && ld * ld > 0) by (nonlinear_arith)
            requires
                ld > 0,
        ;
        assert(a.n * b.d + b.n * a.d >= 0 && a.d * b.d > 0) by (nonlinear_arith)
            requires
                a.n >= 0,
                a.d > 0,
                b.n >= 0,
                b.d > 0,
        ;
    }
}

// ---------------------------------------------------------------------------
// Shared frame conditions
// ---------------------------------------------------------------------------

/// A gravity pass never touches masses, positions or settings, and never
/// changes the number of nodes or the dimension of any velocity vector.
pub open spec fn keeps_shape(a: Layout, b: Layout) -> bool {
    &&& b.masses == a.masses
    &&& b.points == a.points
    &&& b.settings == a.settings
    &&& b.speeds@.len() == a.speeds@.len()
    &&& forall|i: int|
        0 <= i < a.speeds@.len() ==> (#[trigger] b.speeds@[i])@.len() == a.speeds@[i]@.len()
}

/// The reported error names the first node whose position vector is longer
/// than the center vector.
pub open spec fn reports_first_mismatch(l: Layout, e: GravityError) -> bool {
    match e {
        GravityError::CenterTooShort { node } => {
            &&& node < l.points@.len()
            &&& l.points@[node as int]@.len() > l.settings.center@.len()
            &&& forall|k: int|
                0 <= k < node ==> (#[trigger] l.points@[k])@.len() <= l.settings.center@.len()
        },
    }
}

/// The caller obligations of each model, beyond layout well-formedness.
pub open spec fn grav_requires(m: GravityModel, l: Layout) -> bool {
    match m {
        GravityModel::Force2 => l.masses_positive() && force2_fits(l),
        GravityModel::Fruchterman => fruchterman_fits(l),
        GravityModel::ForceAtlas2 => forceatlas2_fits(l),
        GravityModel::ForceAtlas2Sg => forceatlas2_sg_fits(l),
    }
}

/// The velocities each model leaves behind: one pinned value per model, per
/// node, per dimension.
pub open spec fn grav_speeds(m: GravityModel, l: Layout) -> Seq<Seq<Rat>> {
    match m {
        GravityModel::Force2 => force2_speeds(l),
        GravityModel::Fruchterman => fruchterman_speeds(l),
        GravityModel::ForceAtlas2 => forceatlas2_speeds(l),
        GravityModel::ForceAtlas2Sg => forceatlas2_sg_speeds(l),
    }
}

/// Finds the first node whose position vector the center vector does not
/// cover, if any.
fn first_center_mismatch(layout: &Layout) -> (r: Option<usize>)
    ensures
        match r {
            None => layout.center_ok(),
            Some(i) => !layout.center_ok() && reports_first_mismatch(
                *layout,
                GravityError::CenterTooShort { node: i },
            ),
        },
{
    let n: usize = layout.points.len();
    let mut i: usize = 0;
    while i < n
        invariant
            i <= n,
            n == layout.points@.len(),
            forall|k: int|
                0 <= k < i ==> (#[trigger] layout.points@[k])@.len()
                    <= layout.settings.center@.len(),
        decreases n - i,
    {
        if layout.settings.center.len() < layout.points[i].len() {
            return Some(i);
        }
        i += 1;
    }
    None
}

/// Linear gravity: every velocity receives
/// `-(kg * (point - center) / mass)`, so lighter nodes are pulled harder.
/// Demands strictly positive masses; fails, changing nothing, exactly when
/// the center vector is shorter than some node's position vector.
#[verifier::loop_isolation(false)]
pub fn apply_gravity_force2(layout: &mut Layout) -> (r: Result<(), GravityError>)
    requires
        old(layout).wf(),
        old(layout).masses_positive(),
        force2_fits(*old(layout)),
    ensures
        keeps_shape(*old(layout), *final(layout)),
        final(layout).wf(),
        match r {
            Ok(_) => old(layout).center_ok() && grid_view(final(layout).speeds@) == force2_speeds(
                *old(layout),
            ),
            Err(e) => !old(layout).center_ok() && *final(layout) == *old(layout)
                && reports_first_mismatch(*old(layout), e),
        },
{
    match first_center_mismatch(layout) {
        Some(bad) => {
            return Err(GravityError::CenterTooShort { node: bad });
        },
        None => {},
    }
    let ghost orig: Layout = *layout;
    let n: usize = layout.points.len();
    let mut i: usize = 0;
    while i < n
        invariant
            i <= n,
            layout.masses == orig.masses,
            layout.points == orig.points,
            layout.settings == orig.settings,
            layout.speeds@.len() == orig.speeds@.len(),
            forall|k: int| i <= k < n ==> layout.speeds@[k] == orig.speeds@[k],
            forall|k: int|
                0 <= k < i ==> seq_view((#[trigger] layout.speeds@[k])@) == force2_speeds(orig)[k],
            forall|k: int|
                0 <= k < i ==> (#[trigger] layout.speeds@[k])@.len() == orig.speeds@[k]@.len(),
            forall|k: int, t: int|
                0 <= k < i && 0 <= t < layout.speeds@[k]@.len() ==> rat_wf(
                    (#[trigger] layout.speeds@[k]@[t])@,
                ),
        decreases n - i,
    {
        let m: Coord = layout.masses[i];
        let gf: Coord = layout.settings.kg;
        let dim: usize = layout.points[i].len();
        let mut row: Vec<Coord> = Vec::new();
        let mut j: usize = 0;
        while j < dim
            invariant
                j <= dim,
                i < n,
                row@.len() == j,
                forall|t: int|
                    0 <= t < j ==> (#[trigger] row@[t])@ == force2_speed_at(orig, i as int, t),
                forall|t: int| 0 <= t < j ==> rat_wf((#[trigger] row@[t])@),
                layout.speeds@[i as int] == orig.speeds@[i as int],
            decreases dim - j,
        {
            proof {
                assert(force2_fits_at(orig, i as int, j as int));
                assert(rat_lt(rat_zero(), orig.masses@[i as int]@));
            }
            let p: Coord = layout.points[i][j];
            let c: Coord = layout.settings.center[j];
            let v: Coord = layout.speeds[i][j];
            let nv: Coord = v.sub(gf.mul(p.sub(c)).div(m));
            row.push(nv);
            j += 1;
        }
        proof {
            assert(seq_view(row@) =~= force2_speeds(orig)[i as int]);
        }
        layout.speeds[i] = row;
        i += 1;
    }
    proof {
        assert(grid_view(layout.speeds@) =~= force2_speeds(orig));
    }
    Ok(())
}

/// Fruchterman-Reingold gravity: every velocity receives
/// `-(0.01 * ka * kg) * (point - center)`, the same damped factor for every
/// node regardless of mass. Fails, changing nothing, exactly when the center
/// vector is shorter than some node's position vector.
#[verifier::loop_isolation(false)]
pub fn apply_gravity_fruchterman(layout: &mut Layout) -> (r: Result<(), GravityError>)
    requires
        old(layout).wf(),
        fruchterman_fits(*old(layout)),
    ensures
        keeps_shape(*old(layout), *final(layout)),
        final(layout).wf(),
        match r {
            Ok(_) => old(layout).center_ok() && grid_view(final(layout).speeds@)
                == fruchterman_speeds(*old(layout)),
            Err(e) => !old(layout).center_ok() && *final(layout) == *old(layout)
                && reports_first_mismatch(*old(layout), e),
        },
{
    match first_center_mismatch(layout) {
        Some(bad) => {
            return Err(GravityError::CenterTooShort { node: bad });
        },
        None => {},
    }
    let ghost orig: Layout = *layout;
    let centi: Coord = Coord::new(1, 100);
    let gf: Coord = centi.mul(layout.settings.ka).mul(layout.settings.kg);
    proof {
        assert(gf@ == fruchterman_factor(orig));
    }
    let n: usize = layout.points.len();
    let mut i: usize = 0;
    while i < n
        invariant
            i <= n,
            layout.masses == orig.masses,
            layout.points == orig.points,
            layout.settings == orig.settings,
            layout.speeds@.len() == orig.speeds@.len(),
            forall|k: int| i <= k < n ==> layout.speeds@[k] == orig.speeds@[k],
            forall|k: int|
                0 <= k < i ==> seq_view((#[trigger] layout.speeds@[k])@) == fruchterman_speeds(
                    orig,
                )[k],
            forall|k: int|
                0 <= k < i ==> (#[trigger] layout.speeds@[k])@.len() == orig.speeds@[k]@.len(),
            forall|k: int, t: int|
                0 <= k < i && 0 <= t < layout.speeds@[k]@.len() ==> rat_wf(
                    (#[trigger] layout.speeds@[k]@[t])@,
                ),
        decreases n - i,
    {
        let dim: usize = layout.points[i].len();
        let mut row: Vec<Coord> = Vec::new();
        let mut j: usize = 0;
        while j < dim
            invariant
                j <= dim,
                i < n,
                row@.len() == j,
                forall|t: int|
                    0 <= t < j ==> (#[trigger] row@[t])@ == fruchterman_speed_at(orig, i as int, t),
                forall|t: int| 0 <= t < j ==> rat_wf((#[trigger] row@[t])@),
                layout.speeds@[i as int] == orig.speeds@[i as int],
        decreases dim - j,
        {
            proof {
                assert(fruchterman_fits_at(orig, i as int, j as int));
            }
            let p: Coord = layout.points[i][j];
            let c: Coord = layout.settings.center[j];
            let v: Coord = layout.speeds[i][j];
            let nv: Coord = v.sub(gf.mul(p.sub(c)));
            row.push(nv);
            j += 1;
        }
        proof {
            assert(seq_view(row@) =~= fruchterman_speeds(orig)[i as int]);
        }
        layout.speeds[i] = row;
        i += 1;
    }
    proof {
        assert(grid_view(layout.speeds@) =~= fruchterman_speeds(orig));
    }
    Ok(())
}

/// ForceAtlas2 strong gravity: every velocity receives
/// `-((mass + 1) * kg) * (point - center)`, a pull that is not attenuated by
/// distance. Fails, changing nothing, exactly when the center vector is
/// shorter than some node's position vector.
#[verifier::loop_isolation(false)]
pub fn apply_gravity_forceatlas2_sg(layout: &mut Layout) -> (r: Result<(), GravityError>)
    requires
        old(layout).wf(),
        forceatlas2_sg_fits(*old(layout)),
    ensures
        keeps_shape(*old(layout), *final(layout)),
        final(layout).wf(),
        match r {
            Ok(_) => old(layout).center_ok() && grid_view(final(layout).speeds@)
                == forceatlas2_sg_speeds(*old(layout)),
            Err(e) => !old(layout).center_ok() && *final(layout) == *old(layout)
                && reports_first_mismatch(*old(layout), e),
        },
{
    match first_center_mismatch(layout) {
        Some(bad) => {
            return Err(GravityError::CenterTooShort { node: bad });
        },
        None => {},
    }
    let ghost orig: Layout = *layout;
    let one: Coord = Coord::from_int(1);
    let n: usize = layout.points.len();
    let mut i: usize = 0;
    while i < n
        invariant
            i <= n,
            layout.masses == orig.masses,
            layout.points == orig.points,
            layout.settings == orig.settings,
            layout.speeds@.len() == orig.speeds@.len(),
            forall|k: int| i <= k < n ==> layout.speeds@[k] == orig.speeds@[k],
            forall|k: int|
                0 <= k < i ==> seq_view((#[trigger] layout.speeds@[k])@) == forceatlas2_sg_speeds(
                    orig,
                )[k],
            forall|k: int|
                0 <= k < i ==> (#[trigger] layout.speeds@[k])@.len() == orig.speeds@[k]@.len(),
            forall|k: int, t: int|
                0 <= k < i && 0 <= t < layout.speeds@[k]@.len() ==> rat_wf(
                    (#[trigger] layout.speeds@[k]@[t])@,
                ),
        decreases n - i,
    {
        let dim: usize = layout.points[i].len();
        let mut row: Vec<Coord> = Vec::new();
        let mut j: usize = 0;
        while j < dim
            invariant
                j <= dim,
                i < n,
                row@.len() == j,
                forall|t: int|
                    0 <= t < j ==> (#[trigger] row@[t])@ == forceatlas2_sg_speed_at(
                        orig,
                        i as int,
                        t,
                    ),
                forall|t: int| 0 <= t < j ==> rat_wf((#[trigger] row@[t])@),
                layout.speeds@[i as int] == orig.speeds@[i as int],
            decreases dim - j,
        {
            proof {
                assert(forceatlas2_sg_fits_at(orig, i as int, j as int));
            }
            let f: Coord = layout.masses[i].add(one).mul(layout.settings.kg);
            let p: Coord = layout.points[i][j];
            let c: Coord = layout.settings.center[j];
            let v: Coord = layout.speeds[i][j];
            let nv: Coord = v.sub(f.mul(p.sub(c)));
            row.push(nv);
            j += 1;
        }
        proof {
            assert(seq_view(row@) =~= forceatlas2_sg_speeds(orig)[i as int]);
        }
        layout.speeds[i] = row;
        i += 1;
    }
    proof {
        assert(grid_view(layout.speeds@) =~= forceatlas2_sg_speeds(orig));
    }
    Ok(())
}

/// ForceAtlas2 gravity: every velocity receives
/// `-((mass + 1) * kg / d) * (point - center)`, where `d` is the node's
/// distance from the coordinate-space origin. A node at distance zero is
/// skipped outright — its velocity is left unchanged, whatever its mass or
/// `kg`. Fails, changing nothing, exactly when the center vector is shorter
/// than some node's position vector.
#[verifier::loop_isolation(false)]
pub fn apply_gravity_forceatlas2(layout: &mut Layout) -> (r: Result<(), GravityError>)
    requires
        old(layout).wf(),
        forceatlas2_fits(*old(layout)),
    ensures
        keeps_shape(*old(layout), *final(layout)),
        final(layout).wf(),
        match r {
            Ok(_) => old(layout).center_ok() && grid_view(final(layout).speeds@)
                == forceatlas2_speeds(*old(layout)),
            Err(e) => !old(layout).center_ok() && *final(layout) == *old(layout)
                && reports_first_mismatch(*old(layout), e),
        },
{
    match first_center_mismatch(layout) {
        Some(bad) => {
            return Err(GravityError::CenterTooShort { node: bad });
        },
        None => {},
    }
    let ghost orig: Layout = *layout;
    let one: Coord = Coord::from_int(1);
    let n: usize = layout.points.len();
    let mut i: usize = 0;
    while i < n
        invariant
            i <= n,
            layout.masses == orig.masses,
            layout.points == orig.points,
            layout.settings == orig.settings,
            layout.speeds@.len() == orig.speeds@.len(),
            forall|k: int| i <= k < n ==> layout.speeds@[k] == orig.speeds@[k],
            forall|k: int|
                0 <= k < i ==> seq_view((#[trigger] layout.speeds@[k])@) == forceatlas2_speeds(
                    orig,
                )[k],
            forall|k: int|
                0 <= k < i ==> (#[trigger] layout.speeds@[k])@.len() == orig.speeds@[k]@.len(),
            forall|k: int, t: int|
                0 <= k < i && 0 <= t < layout.speeds@[k]@.len() ==> rat_wf(
                    (#[trigger] layout.speeds@[k]@[t])@,
                ),
        decreases n - i,
    {
        let ghost sv: Seq<Rat> = seq_view(orig.points@[i as int]@);
        proof {
            assert(fa2_node_fits(orig, i as int));
            assert forall|t: int| 0 <= t < sv.len() implies rat_wf(#[trigger] sv[t]) by {
                assert(sv[t] == (orig.points@[i as int]@[t])@);
            }
            lemma_sum_sq_wf(sv);
        }
        let dim: usize = layout.points[i].len();
        let mut acc: Coord = Coord::from_int(0);
        let mut j: usize = 0;
        while j < dim
            invariant
                j <= dim,
                i < n,
                acc@ == sum_sq(sv.take(j as int)),
                rat_wf(acc@),
            decreases dim - j,
        {
            proof {
                lemma_sum_sq_fits_prefix(sv, j + 1);
                let tk1 = sv.take(j as int + 1);
                assert(tk1.drop_last() =~= sv.take(j as int));
                assert(tk1.last() == sv[j as int]);
                assert(sv[j as int] == (orig.points@[i as int]@[j as int])@);
                lemma_sum_sq_wf(sv.take(j as int));
            }
            let p: Coord = layout.points[i][j];
            acc = acc.add(p.mul(p));
            j += 1;
        }
        proof {
            assert(sv.take(dim as int) =~= sv);
        }
        let d: Coord = acc.sqrt();
        proof {
            assert(d@ == fa2_dist(orig, i as int));
        }
        if d.is_zero() {
            proof {
                assert(rat_eqv(d@, rat_zero()));
                assert(d@.n == 0) by (nonlinear_arith)
                    requires
                        d@.n * 1 == 0 * d@.d,
                ;
                assert(fa2_dist(orig, i as int).n == 0);
                assert(seq_view(layout.speeds@[i as int]@) =~= forceatlas2_speeds(
                    orig,
                )[i as int]);
            }
        } else {
            proof {
                assert(!rat_eqv(d@, rat_zero()));
                assert(d@.n != 0) by (nonlinear_arith)
                    requires
                        !(d@.n * 1 == 0 * d@.d),
                ;
                assert(fa2_dist(orig, i as int).n != 0);
                assert(one@ == rat_one());
                assert(fa2_node_fits(orig, i as int));
            }
            let f: Coord = layout.masses[i].add(one).mul(layout.settings.kg).div(d);
            let mut row: Vec<Coord> = Vec::new();
            let mut j: usize = 0;
            while j < dim
                invariant
                    j <= dim,
                    i < n,
                    row@.len() == j,
                    f@ == fa2_factor(orig, i as int),
                    rat_wf(f@),
                    fa2_dist(orig, i as int).n != 0,
                    forall|t: int|
                        0 <= t < j ==> (#[trigger] row@[t])@ == forceatlas2_speed_at(
                            orig,
                            i as int,
                            t,
                        ),
                    forall|t: int| 0 <= t < j ==> rat_wf((#[trigger] row@[t])@),
                    layout.speeds@[i as int] == orig.speeds@[i as int],
                decreases dim - j,
            {
                proof {
                    assert(fa2_dim_fits(orig, i as int, j as int));
                }
                let p: Coord = layout.points[i][j];
                let c: Coord = layout.settings.center[j];
                let v: Coord = layout.speeds[i][j];
                let nv: Coord = v.sub(f.mul(p.sub(c)));
                row.push(nv);
                j += 1;
            }
            proof {
                assert(seq_view(row@) =~= forceatlas2_speeds(orig)[i as int]);
            }
            layout.speeds[i] = row;
        }
        i += 1;
    }
    proof {
        assert(grid_view(layout.speeds@) =~= forceatlas2_speeds(orig));
    }
    Ok(())
}

/// Applies the selected gravity model: one stateless pass that adds each
/// node's pull toward the center into its velocity.
pub fn apply_gravity(model: GravityModel, layout: &mut Layout) -> (r: Result<(), GravityError>)
    requires
        old(layout).wf(),
        grav_requires(model, *old(layout)),
    ensures
        keeps_shape(*old(layout), *final(layout)),
        final(layout).wf(),
        match r {
            Ok(_) => old(layout).center_ok() && grid_view(final(layout).speeds@) == grav_speeds(
                model,
                *old(layout),
            ),
            Err(e) => !old(layout).center_ok() && *final(layout) == *old(layout)
                && reports_first_mismatch(*old(layout), e),
        },
{
    match model {
        GravityModel::Force2 => apply_gravity_force2(layout),
        GravityModel::Fruchterman => apply_gravity_fruchterman(layout),
        GravityModel::ForceAtlas2 => apply_gravity_forceatlas2(layout),
        GravityModel::ForceAtlas2Sg => apply_gravity_forceatlas2_sg(layout),
    }
}

} // verus!
