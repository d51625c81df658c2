use mandelbrot::complex::check_bounded;
use mandelbrot::complex::Bound;
use mandelbrot::complex::BoundsSettings;
use mandelbrot::decimal::Decimal;

fn classify(re: (i64, i32), im: (i64, i32), cap: u32, precision: u32) -> Bound {
    let xs = Decimal::from_i64(re.0, re.1);
    let ys = Decimal::from_i64(im.0, im.1);
    let out = check_bounded::<Decimal>(&xs, &ys, BoundsSettings::new(cap, precision));
    assert_eq!(out.len(), 1);
    out[0]
}

#[test]
fn bounds_settings_hold_what_they_are_given() {
    let b = BoundsSettings::new(500, 53);
    assert_eq!(b.limit, 500);
    assert_eq!(b.precision, 53);
}

#[test]
fn origin_is_bounded_under_every_cap() {
    for cap in [0u32, 1, 2, 3, 50, 500] {
        for precision in [0u32, 1, 10, 40] {
            assert_eq!(classify((0, 0), (0, 0), cap, precision), Bound::Bounded);
        }
    }
    // zero written with a scale of its own
    assert_eq!(classify((0, 7), (0, -3), 100, 5), Bound::Bounded);
}

#[test]
fn zero_cap_means_bounded() {
    assert_eq!(classify((3, 0), (0, 0), 0, 10), Bound::Bounded);
    assert_eq!(classify((-25, 1), (170, 1), 0, 10), Bound::Bounded);
    assert_eq!(classify((1, 0), (1, 0), 0, 0), Bound::Bounded);
}

#[test]
fn far_points_escape_at_the_first_step() {
    assert_eq!(classify((3, 0), (0, 0), 10, 10), Bound::Unbounded(1));
    assert_eq!(classify((0, 0), (-21, 1), 10, 10), Bound::Unbounded(1));
    assert_eq!(classify((-15, 1), (15, 1), 2, 6), Bound::Unbounded(1));
    assert_eq!(classify((1000, 0), (-1000, 0), 500, 30), Bound::Unbounded(1));
}

#[test]
fn a_point_on_the_circle_counts_as_outside() {
    // |c|^2 is exactly 4, which is not below the threshold
    assert_eq!(classify((-2, 0), (0, 0), 100, 12), Bound::Unbounded(1));
    assert_eq!(classify((0, 0), (2, 0), 100, 12), Bound::Unbounded(1));
}

#[test]
fn a_cap_of_one_sees_only_the_start() {
    // only step 0 is looked at, and the orbit starts in the origin
    assert_eq!(classify((3, 0), (0, 0), 1, 10), Bound::Bounded);
}

#[test]
fn a_point_just_outside_may_take_one_step_more() {
    // |c|^2 = 4.0045, but at two digits the squares are cut to 1.98 and 2.01
    assert_eq!(classify((141, 2), (142, 2), 50, 2), Bound::Unbounded(2));
    // at more digits the same point is seen outside at once
    assert_eq!(classify((141, 2), (142, 2), 50, 6), Bound::Unbounded(1));
}

#[test]
fn known_orbits() {
    // 0, 1, 2: |2|^2 = 4
    assert_eq!(classify((1, 0), (0, 0), 100, 20), Bound::Unbounded(2));
    // 0, -1, 0, -1, ..
    assert_eq!(classify((-1, 0), (0, 0), 300, 20), Bound::Bounded);
    // 0, i, -1+i, -i, -1+i, ..
    assert_eq!(classify((0, 0), (1, 0), 300, 20), Bound::Bounded);
    // 0, .5, .75, 1.0625, 1.62890625, 3.1533.., the last is outside
    assert_eq!(classify((5, 1), (0, 0), 100, 30), Bound::Unbounded(5));
    // 0, .25, .3125, .34765625, .. creeps up to .5
    assert_eq!(classify((25, 2), (0, 0), 200, 40), Bound::Bounded);
}

#[test]
fn the_cap_cuts_an_orbit_short() {
    // 0.5 leaves at step 5: a cap of 5 does not look at step 5
    assert_eq!(classify((5, 1), (0, 0), 5, 30), Bound::Bounded);
    assert_eq!(classify((5, 1), (0, 0), 6, 30), Bound::Unbounded(5));
}

#[test]
fn unbounded_counts_stay_below_the_cap() {
    for cap in 1u32..12 {
        for re in [-20i64, -13, -7, 0, 3, 4, 11, 25] {
            for im in [-11i64, 0, 6, 10] {
                if let Bound::Unbounded(n) = classify((re, 1), (im, 1), cap, 12) {
                    assert!(n < cap);
                }
            }
        }
    }
}

#[test]
fn a_larger_cap_never_changes_an_escape() {
    for re in [-20i64, -13, -7, 0, 3, 4, 11, 25] {
        for im in [-11i64, 0, 6, 10] {
            let small = classify((re, 1), (im, 1), 20, 12);
            let large = classify((re, 1), (im, 1), 60, 12);
            if let Bound::Unbounded(_) = small {
                assert_eq!(small, large);
            }
        }
    }
}

#[test]
fn the_imaginary_part_is_the_doubled_product() {
    // c = 0.5 + 0.5i: z1 = c, z2 = (0.5, 1.0), z3 = (-0.25, 1.5), z4 = (-1.6875, -0.25),
    // z5 = (3.28.., 1.34..) is outside
    assert_eq!(classify((5, 1), (5, 1), 100, 30), Bound::Unbounded(5));
}
