use splines::Interpolation;
use splines::Key;
use splines::Milli;
use splines::Spline;

fn m(raw: i64) -> Milli {
    Milli::new(raw)
}

fn key(c: i64, v: i64, mode: Interpolation<Milli>) -> Key<Milli, Milli> {
    Key::new(m(c), m(v), mode)
}

#[test]
fn linear_two_keys() {
    let spline = Spline::from_vec(vec![
        key(0, 0, Interpolation::Linear),
        key(1000, 10000, Interpolation::Linear),
    ]);
    assert_eq!(spline.sample(m(0)), Some(m(0)));
    assert_eq!(spline.sample(m(500)), Some(m(5000)));
    assert_eq!(spline.sample(m(1000)), Some(m(10000)));
    assert_eq!(spline.sample(m(1100)), None);
    assert_eq!(spline.clamped_sample(m(1100)), Some(m(10000)));
    assert_eq!(spline.clamped_sample(m(-900)), Some(m(0)));
}

#[test]
fn step_two_keys() {
    let spline = Spline::from_vec(vec![
        key(0, 0, Interpolation::Step),
        key(1000, 10000, Interpolation::Step),
    ]);
    assert_eq!(spline.sample(m(990)), Some(m(0)));
    assert_eq!(spline.sample(m(1000)), Some(m(10000)));
}

#[test]
fn single_key_yields_no_sample() {
    let spline = Spline::from_vec(vec![key(0, 5000, Interpolation::Linear)]);
    assert_eq!(spline.sample(m(0)), None);
    assert_eq!(spline.sample(m(1000)), None);
    assert_eq!(spline.clamped_sample(m(-100000)), Some(m(5000)));
    assert_eq!(spline.clamped_sample(m(0)), Some(m(5000)));
    assert_eq!(spline.clamped_sample(m(2000)), Some(m(5000)));
}

#[test]
fn out_of_domain_is_none_clamped_is_some() {
    let spline = Spline::from_vec(vec![
        key(0, 0, Interpolation::Linear),
        key(1000, 10000, Interpolation::Linear),
        key(2000, 0, Interpolation::Linear),
    ]);
    assert_eq!(spline.sample(m(-1)), None);
    assert_eq!(spline.sample(m(2001)), None);
    assert_eq!(spline.clamped_sample(m(-1)), Some(m(0)));
    assert_eq!(spline.clamped_sample(m(0)), Some(m(0)));
    assert_eq!(spline.clamped_sample(m(2000)), Some(m(0)));
    assert_eq!(spline.clamped_sample(m(999999)), Some(m(0)));
}

#[test]
fn sampling_at_key_coordinates_is_idempotent_for_every_mode() {
    let spline = Spline::from_vec(vec![
        key(0, 100, Interpolation::Step),
        key(1000, 200, Interpolation::Linear),
        key(2000, 300, Interpolation::Cosine),
        key(3000, 400, Interpolation::CatmullRom),
        key(4000, 500, Interpolation::Bezier(m(9000))),
        key(5000, 600, Interpolation::StrokeBezier(m(1000), m(8000))),
        key(6000, 700, Interpolation::Linear),
    ]);
    assert_eq!(spline.sample(m(0)), Some(m(100)));
    assert_eq!(spline.sample(m(1000)), Some(m(200)));
    assert_eq!(spline.sample(m(2000)), Some(m(300)));
    assert_eq!(spline.sample(m(3000)), Some(m(400)));
    assert_eq!(spline.sample(m(4000)), Some(m(500)));
    assert_eq!(spline.sample(m(5000)), Some(m(600)));
    assert_eq!(spline.sample(m(6000)), Some(m(700)));
}

#[test]
fn cosine_eases_between_keys() {
    let spline = Spline::from_vec(vec![
        key(0, 0, Interpolation::Cosine),
        key(1000, 10000, Interpolation::Linear),
    ]);
    assert_eq!(spline.sample(m(500)), Some(m(5000)));
    assert_eq!(spline.sample(m(250)), Some(m(1550)));
}

#[test]
fn catmull_rom_first_segment_matches_linear() {
    let with_catmull_rom = Spline::from_vec(vec![
        key(0, 0, Interpolation::CatmullRom),
        key(1000, 10000, Interpolation::CatmullRom),
        key(2000, 4000, Interpolation::CatmullRom),
    ]);
    let with_linear = Spline::from_vec(vec![
        key(0, 0, Interpolation::Linear),
        key(1000, 10000, Interpolation::CatmullRom),
        key(2000, 4000, Interpolation::CatmullRom),
    ]);
    assert_eq!(with_catmull_rom.sample(m(250)), with_linear.sample(m(250)));
    assert_eq!(with_catmull_rom.sample(m(500)), with_linear.sample(m(500)));
    assert_eq!(with_catmull_rom.sample(m(999)), with_linear.sample(m(999)));
    assert_eq!(with_catmull_rom.sample(m(500)), Some(m(5000)));
}

#[test]
fn catmull_rom_uses_neighbor_keys_in_interior_segments() {
    let spline = Spline::from_vec(vec![
        key(0, 0, Interpolation::CatmullRom),
        key(1000, 1000, Interpolation::CatmullRom),
        key(2000, 3000, Interpolation::CatmullRom),
        key(3000, 4000, Interpolation::CatmullRom),
    ]);
    assert_eq!(spline.sample(m(1500)), Some(m(2000)));
    assert_eq!(spline.sample(m(1250)), Some(m(1453)));
}

#[test]
fn quadratic_bezier_blends_through_control_value() {
    let spline = Spline::from_vec(vec![
        key(0, 0, Interpolation::Bezier(m(5000))),
        key(1000, 10000, Interpolation::Linear),
    ]);
    assert_eq!(spline.sample(m(0)), Some(m(0)));
    assert_eq!(spline.sample(m(500)), Some(m(5000)));
    assert_eq!(spline.sample(m(1000)), Some(m(10000)));
}

#[test]
fn cubic_bezier_blends_through_both_control_values() {
    let spline = Spline::from_vec(vec![
        key(0, 0, Interpolation::StrokeBezier(m(2000), m(4000))),
        key(1000, 10000, Interpolation::Linear),
    ]);
    assert_eq!(spline.sample(m(500)), Some(m(3500)));
    assert_eq!(spline.sample(m(0)), Some(m(0)));
    assert_eq!(spline.sample(m(1000)), Some(m(10000)));
}

#[test]
fn duplicate_coordinates_resolve_to_last_matching_key() {
    let spline = Spline::from_vec(vec![
        key(0, 0, Interpolation::Linear),
        key(1000, 5000, Interpolation::Linear),
        key(1000, 9000, Interpolation::Linear),
        key(2000, 20000, Interpolation::Linear),
    ]);
    assert_eq!(spline.sample(m(1000)), Some(m(9000)));
    assert_eq!(spline.sample(m(1500)), Some(m(14500)));
    assert_eq!(spline.sample(m(500)), Some(m(2500)));
}

#[test]
fn saturating_blend_pins_extreme_values() {
    let spline = Spline::from_vec(vec![
        key(0, i64::MIN, Interpolation::Linear),
        key(1000, i64::MAX, Interpolation::Linear),
    ]);
    assert_eq!(spline.sample(m(0)), Some(m(i64::MIN)));
    assert_eq!(spline.sample(m(1000)), Some(m(i64::MAX)));
    assert_eq!(spline.sample(m(500)), Some(m(-4611686018427387905)));
}
