use ferromagnetic::igrf::direction::{direction_case, Declination, Direction};

const THRESHOLD: f64 = 0.0001;

/// Declination and inclination in radians, horizontal and total intensity,
/// of the field vector with the given components.
fn derive(north: f64, east: f64, down: f64) -> (f64, f64, f64, f64) {
    let horizontal = (north * north + east * east).sqrt();
    let total = (north * north + east * east + down * down).sqrt();
    let direction =
        direction_case(total < THRESHOLD, horizontal < THRESHOLD, horizontal + north < THRESHOLD);
    let inclination =
        if direction.inclination_defined { down.atan2(horizontal) } else { f64::NAN };
    let declination = match direction.declination {
        Declination::Undefined => f64::NAN,
        Declination::DueSouth => std::f64::consts::PI,
        Declination::HalfAngle => 2.0 * east.atan2(horizontal + north),
    };
    (declination, inclination, horizontal, total)
}

fn assert_rel(actual: f64, expected: f64, tol: f64) {
    let scale = actual.abs().max(expected.abs());
    assert!(
        (actual - expected).abs() <= tol * scale,
        "actual={} expected={}",
        actual,
        expected
    );
}

#[test]
fn difh_xyz() {
    let (declination, inclination, horizontal, total) =
        derive(7074.026894642207, 4596.188334222297, 62650.49087477549);
    assert_rel(declination, 0.5761834859773884, 1e-12);
    assert_rel(inclination, 1.4369489460941476, 1e-12);
    assert_rel(horizontal, 8436.041945709041, 1e-12);
    assert_rel(total, 63215.90630972626, 1e-12);
}

#[test]
fn degenerate_field_has_no_direction() {
    let (declination, inclination, horizontal, total) = derive(0.0, 0.0, 0.0);
    assert!(declination.is_nan());
    assert!(inclination.is_nan());
    assert_eq!(horizontal, 0.0);
    assert_eq!(total, 0.0);
    let (declination, inclination, _, _) = derive(1e-5, -2e-5, 3e-5);
    assert!(declination.is_nan());
    assert!(inclination.is_nan());
}

#[test]
fn vertical_field_has_an_inclination_only() {
    let (declination, inclination, _, _) = derive(0.0, 0.0, 50000.0);
    assert!(declination.is_nan());
    assert_eq!(inclination, std::f64::consts::FRAC_PI_2);
}

#[test]
fn field_due_south_has_declination_pi() {
    let (declination, inclination, horizontal, _) = derive(-20000.0, 0.0, 0.0);
    assert_eq!(declination, std::f64::consts::PI);
    assert_eq!(inclination, 0.0);
    assert_eq!(horizontal, 20000.0);
}

#[test]
fn half_angle_agrees_with_the_plain_angle() {
    let (declination, _, _, _) = derive(100.0, 100.0, 0.0);
    assert_rel(declination, std::f64::consts::FRAC_PI_4, 1e-15);
    let (declination, _, _, _) = derive(-100.0, -100.0, 0.0);
    assert_rel(declination, (-100.0f64).atan2(-100.0), 1e-15);
}

#[test]
fn truth_table() {
    for weak_total in [false, true] {
        for weak_horizontal in [false, true] {
            for southward in [false, true] {
                let expected = Direction {
                    declination: if weak_total || weak_horizontal {
                        Declination::Undefined
                    } else if southward {
                        Declination::DueSouth
                    } else {
                        Declination::HalfAngle
                    },
                    inclination_defined: !weak_total,
                };
                assert_eq!(direction_case(weak_total, weak_horizontal, southward), expected);
            }
        }
    }
    assert_eq!(
        direction_case(false, false, true),
        Direction { declination: Declination::DueSouth, inclination_defined: true }
    );
    assert_eq!(
        direction_case(false, true, true),
        Direction { declination: Declination::Undefined, inclination_defined: true }
    );
}
