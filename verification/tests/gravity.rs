use layout_gravity::coord::Coord;
use layout_gravity::gravity::{
    apply_gravity, apply_gravity_force2, apply_gravity_forceatlas2, apply_gravity_forceatlas2_sg,
    apply_gravity_fruchterman, GravityModel,
};
use layout_gravity::layout::{GravityError, Layout, Settings};

fn ci(v: i64) -> Coord {
    Coord::from_int(v)
}

fn cf(n: i64, d: i64) -> Coord {
    Coord::new(n, d)
}

fn build(
    masses: Vec<Coord>,
    points: Vec<Vec<Coord>>,
    speeds: Vec<Vec<Coord>>,
    center: Vec<Coord>,
    kg: Coord,
    ka: Coord,
) -> Layout {
    Layout { masses, points, speeds, settings: Settings { center, kg, ka } }
}

/// `a` and `b` denote the same number.
fn same(a: Coord, b: Coord) -> bool {
    a.eq_value(b)
}

#[test]
fn force2_single_node() {
    let mut l = build(
        vec![ci(1)],
        vec![vec![ci(3), ci(4)]],
        vec![vec![ci(0), ci(0)]],
        vec![ci(0), ci(0)],
        ci(1),
        ci(0),
    );
    assert!(apply_gravity_force2(&mut l).is_ok());
    assert!(same(l.speeds[0][0], ci(-3)));
    assert!(same(l.speeds[0][1], ci(-4)));
}

#[test]
fn forceatlas2_single_node() {
    let mut l = build(
        vec![ci(1)],
        vec![vec![ci(3), ci(4)]],
        vec![vec![ci(0), ci(0)]],
        vec![ci(0), ci(0)],
        ci(1),
        ci(0),
    );
    assert!(apply_gravity_forceatlas2(&mut l).is_ok());
    // d = 5, factor = (1 + 1) * 1 / 5 = 0.4
    assert!(same(l.speeds[0][0], cf(-12, 10)));
    assert!(same(l.speeds[0][1], cf(-16, 10)));
}

#[test]
fn forceatlas2_sg_single_node() {
    let mut l = build(
        vec![ci(1)],
        vec![vec![ci(3), ci(4)]],
        vec![vec![ci(0), ci(0)]],
        vec![ci(0), ci(0)],
        ci(1),
        ci(0),
    );
    assert!(apply_gravity_forceatlas2_sg(&mut l).is_ok());
    // factor = (1 + 1) * 1 = 2
    assert!(same(l.speeds[0][0], ci(-6)));
    assert!(same(l.speeds[0][1], ci(-8)));
}

#[test]
fn fruchterman_single_node() {
    let mut l = build(
        vec![ci(1)],
        vec![vec![ci(3), ci(4)]],
        vec![vec![ci(0), ci(0)]],
        vec![ci(0), ci(0)],
        ci(1),
        ci(1),
    );
    assert!(apply_gravity_fruchterman(&mut l).is_ok());
    // factor = 0.01 * 1 * 1
    assert!(same(l.speeds[0][0], cf(-3, 100)));
    assert!(same(l.speeds[0][1], cf(-4, 100)));
}

#[test]
fn forceatlas2_inexact_distance_floored() {
    let mut l = build(
        vec![ci(1)],
        vec![vec![ci(1), ci(1)]],
        vec![vec![ci(0), ci(0)]],
        vec![ci(0), ci(0)],
        ci(1),
        ci(0),
    );
    assert!(apply_gravity_forceatlas2(&mut l).is_ok());
    // d = sqrt(2) floored to 1.414, factor = 2 / 1.414 = 1000/707
    assert!(same(l.speeds[0][0], cf(-1000, 707)));
    assert!(same(l.speeds[0][1], cf(-1000, 707)));
}

#[test]
fn determinism_all_models() {
    for model in [
        GravityModel::Force2,
        GravityModel::Fruchterman,
        GravityModel::ForceAtlas2,
        GravityModel::ForceAtlas2Sg,
    ] {
        let fresh = || {
            build(
                vec![ci(1), ci(3)],
                vec![vec![ci(3), ci(4)], vec![cf(-7, 2), ci(5)]],
                vec![vec![cf(1, 2), ci(0)], vec![ci(2), cf(-1, 3)]],
                vec![ci(1), ci(-2)],
                cf(7, 5),
                cf(3, 2),
            )
        };
        let mut a = fresh();
        let mut b = fresh();
        assert!(apply_gravity(model, &mut a).is_ok());
        assert!(apply_gravity(model, &mut b).is_ok());
        for i in 0..2 {
            for j in 0..2 {
                assert_eq!(a.speeds[i][j].num, b.speeds[i][j].num);
                assert_eq!(a.speeds[i][j].den, b.speeds[i][j].den);
            }
        }
    }
}

#[test]
fn noop_at_center_fruchterman() {
    let mut l = build(
        vec![ci(4)],
        vec![vec![ci(2), cf(3, 2)]],
        vec![vec![cf(1, 2), ci(-5)]],
        vec![ci(2), cf(6, 4)],
        ci(3),
        ci(7),
    );
    assert!(apply_gravity_fruchterman(&mut l).is_ok());
    assert!(same(l.speeds[0][0], cf(1, 2)));
    assert!(same(l.speeds[0][1], ci(-5)));
}

#[test]
fn noop_at_center_forceatlas2_sg() {
    let mut l = build(
        vec![ci(4)],
        vec![vec![ci(2), cf(3, 2)]],
        vec![vec![cf(1, 2), ci(-5)]],
        vec![ci(2), cf(6, 4)],
        ci(3),
        ci(0),
    );
    assert!(apply_gravity_forceatlas2_sg(&mut l).is_ok());
    assert!(same(l.speeds[0][0], cf(1, 2)));
    assert!(same(l.speeds[0][1], ci(-5)));
}

#[test]
fn zero_distance_skip_forceatlas2() {
    let mut l = build(
        vec![ci(7)],
        vec![vec![ci(0), ci(0)]],
        vec![vec![cf(11, 10), ci(-3)]],
        vec![ci(5), ci(6)],
        ci(9),
        ci(0),
    );
    assert!(apply_gravity_forceatlas2(&mut l).is_ok());
    // The node sits at the origin: its velocity is left exactly as it was.
    assert_eq!(l.speeds[0][0].num, 11);
    assert_eq!(l.speeds[0][0].den, 10);
    assert_eq!(l.speeds[0][1].num, -3);
    assert_eq!(l.speeds[0][1].den, 1);
}

/// |a| < |b| as values.
fn abs_lt(a: Coord, b: Coord) -> bool {
    a.abs_value().lt_value(b.abs_value())
}

#[test]
fn mass_monotonic_forceatlas2() {
    let fresh = |mass: Coord| {
        build(
            vec![mass],
            vec![vec![ci(3), ci(4)]],
            vec![vec![ci(0), ci(0)]],
            vec![ci(1), ci(1)],
            ci(1),
            ci(0),
        )
    };
    let mut light = fresh(ci(1));
    let mut heavy = fresh(ci(2));
    assert!(apply_gravity_forceatlas2(&mut light).is_ok());
    assert!(apply_gravity_forceatlas2(&mut heavy).is_ok());
    for j in 0..2 {
        assert!(abs_lt(light.speeds[0][j], heavy.speeds[0][j]));
    }
}

#[test]
fn mass_monotonic_forceatlas2_sg() {
    let fresh = |mass: Coord| {
        build(
            vec![mass],
            vec![vec![ci(3), ci(4)]],
            vec![vec![ci(0), ci(0)]],
            vec![ci(1), ci(1)],
            ci(1),
            ci(0),
        )
    };
    let mut light = fresh(ci(1));
    let mut heavy = fresh(ci(2));
    assert!(apply_gravity_forceatlas2_sg(&mut light).is_ok());
    assert!(apply_gravity_forceatlas2_sg(&mut heavy).is_ok());
    for j in 0..2 {
        assert!(abs_lt(light.speeds[0][j], heavy.speeds[0][j]));
    }
}

/// value(a) == factor * value(b).
fn is_scaled(a: Coord, factor: i64, b: Coord) -> bool {
    a.eq_value(Coord::from_int(factor).mul(b))
}

#[test]
fn kg_doubling_doubles_fruchterman_delta() {
    let fresh = |kg: Coord| {
        build(
            vec![ci(1), ci(2)],
            vec![vec![ci(3), ci(4)], vec![ci(-5), cf(7, 2)]],
            vec![vec![ci(0), ci(0)], vec![ci(0), ci(0)]],
            vec![ci(1), ci(-1)],
            kg,
            cf(3, 2),
        )
    };
    let mut single = fresh(ci(1));
    let mut double = fresh(ci(2));
    assert!(apply_gravity_fruchterman(&mut single).is_ok());
    assert!(apply_gravity_fruchterman(&mut double).is_ok());
    // Velocities started at zero, so each one equals its own delta.
    for i in 0..2 {
        for j in 0..2 {
            assert!(is_scaled(double.speeds[i][j], 2, single.speeds[i][j]));
        }
    }
}

#[test]
fn ka_doubling_doubles_fruchterman_delta() {
    let fresh = |ka: Coord| {
        build(
            vec![ci(1), ci(2)],
            vec![vec![ci(3), ci(4)], vec![ci(-5), cf(7, 2)]],
            vec![vec![ci(0), ci(0)], vec![ci(0), ci(0)]],
            vec![ci(1), ci(-1)],
            cf(3, 4),
            ka,
        )
    };
    let mut single = fresh(ci(1));
    let mut double = fresh(ci(2));
    assert!(apply_gravity_fruchterman(&mut single).is_ok());
    assert!(apply_gravity_fruchterman(&mut double).is_ok());
    for i in 0..2 {
        for j in 0..2 {
            assert!(is_scaled(double.speeds[i][j], 2, single.speeds[i][j]));
        }
    }
}

#[test]
fn dimension_mismatch_rejected_all_models() {
    for model in [
        GravityModel::Force2,
        GravityModel::Fruchterman,
        GravityModel::ForceAtlas2,
        GravityModel::ForceAtlas2Sg,
    ] {
        let mut l = build(
            vec![ci(1), ci(2)],
            vec![vec![ci(1), ci(2)], vec![ci(1), ci(2), ci(3)]],
            vec![vec![ci(4), ci(5)], vec![ci(6), ci(7), ci(8)]],
            vec![ci(0), ci(0)],
            ci(1),
            ci(1),
        );
        let r = apply_gravity(model, &mut l);
        assert_eq!(r, Err(GravityError::CenterTooShort { node: 1 }));
        // No velocity was touched.
        assert_eq!(l.speeds[0][0].num, 4);
        assert_eq!(l.speeds[0][1].num, 5);
        assert_eq!(l.speeds[1][0].num, 6);
        assert_eq!(l.speeds[1][1].num, 7);
        assert_eq!(l.speeds[1][2].num, 8);
    }
}

#[test]
fn dimension_mismatch_reports_first_bad_node() {
    let mut l = build(
        vec![ci(1), ci(2)],
        vec![vec![ci(1), ci(2), ci(4)], vec![ci(1), ci(2), ci(3)]],
        vec![vec![ci(0), ci(0), ci(0)], vec![ci(0), ci(0), ci(0)]],
        vec![ci(0)],
        ci(1),
        ci(1),
    );
    let r = apply_gravity_force2(&mut l);
    assert_eq!(r, Err(GravityError::CenterTooShort { node: 0 }));
}

#[test]
fn empty_layout_is_ok() {
    let mut l = build(vec![], vec![], vec![], vec![], ci(1), ci(1));
    assert!(apply_gravity_force2(&mut l).is_ok());
    assert!(apply_gravity_fruchterman(&mut l).is_ok());
    assert!(apply_gravity_forceatlas2(&mut l).is_ok());
    assert!(apply_gravity_forceatlas2_sg(&mut l).is_ok());
    assert_eq!(l.speeds.len(), 0);
}

#[test]
fn dimensions_may_vary_per_node() {
    // One 1-dimensional node, one 3-dimensional node, a center that covers
    // both; extra center entries are ignored.
    let mut l = build(
        vec![ci(1), ci(2)],
        vec![vec![ci(5)], vec![ci(1), ci(2), ci(3)]],
        vec![vec![ci(0)], vec![ci(0), ci(0), ci(0)]],
        vec![ci(1), ci(1), ci(1)],
        ci(1),
        ci(0),
    );
    assert!(apply_gravity_force2(&mut l).is_ok());
    // node 0: -(1 * (5 - 1) / 1) = -4
    assert!(same(l.speeds[0][0], ci(-4)));
    // node 1 has mass 2: -(1 * (p - 1) / 2)
    assert!(same(l.speeds[1][0], ci(0)));
    assert!(same(l.speeds[1][1], cf(-1, 2)));
    assert!(same(l.speeds[1][2], ci(-1)));
}

#[test]
fn force2_divides_by_mass() {
    let mut l = build(
        vec![ci(4)],
        vec![vec![ci(3), ci(-5)]],
        vec![vec![ci(1), ci(1)]],
        vec![ci(1), ci(1)],
        ci(2),
        ci(0),
    );
    assert!(apply_gravity_force2(&mut l).is_ok());
    // -(2 * (3 - 1) / 4) = -1 on top of 1; -(2 * (-6) / 4) = 3 on top of 1.
    assert!(same(l.speeds[0][0], ci(0)));
    assert!(same(l.speeds[0][1], ci(4)));
}

#[test]
fn fractional_scalars_stay_exact() {
    let mut l = build(
        vec![cf(3, 2)],
        vec![vec![cf(7, 3)]],
        vec![vec![cf(1, 6)]],
        vec![cf(1, 3)],
        cf(1, 2),
        ci(0),
    );
    assert!(apply_gravity_force2(&mut l).is_ok());
    // 1/6 - ((1/2) * (7/3 - 1/3) / (3/2)) = 1/6 - 2/3 = -1/2
    assert!(same(l.speeds[0][0], cf(-1, 2)));
}
