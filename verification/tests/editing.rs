use splines::Interpolation;
use splines::Key;
use splines::Milli;
use splines::Spline;

fn m(raw: i64) -> Milli {
    Milli::new(raw)
}

fn key(c: i64, v: i64, mode: Interpolation<Milli>) -> Key<Milli, Milli> {
    Key::new(m(c), m(v), mode)
}

#[test]
fn from_vec_sorts_unsorted_keys() {
    let spline = Spline::from_vec(vec![
        key(2000, 30, Interpolation::Linear),
        key(0, 10, Interpolation::Linear),
        key(1000, 20, Interpolation::Linear),
    ]);
    assert_eq!(spline.len(), 3);
    assert_eq!(spline.get(0), Some(key(0, 10, Interpolation::Linear)));
    assert_eq!(spline.get(1), Some(key(1000, 20, Interpolation::Linear)));
    assert_eq!(spline.get(2), Some(key(2000, 30, Interpolation::Linear)));
    assert_eq!(spline.get(3), None);
}

#[test]
fn from_vec_sort_is_stable_for_equal_coordinates() {
    let spline = Spline::from_vec(vec![
        key(1000, 1, Interpolation::Linear),
        key(0, 2, Interpolation::Linear),
        key(1000, 3, Interpolation::Linear),
    ]);
    assert_eq!(spline.get(0), Some(key(0, 2, Interpolation::Linear)));
    assert_eq!(spline.get(1), Some(key(1000, 1, Interpolation::Linear)));
    assert_eq!(spline.get(2), Some(key(1000, 3, Interpolation::Linear)));
}

#[test]
fn add_inserts_in_order_and_after_equal_coordinates() {
    let mut spline = Spline::from_vec(vec![
        key(0, 1, Interpolation::Linear),
        key(2000, 3, Interpolation::Linear),
    ]);
    spline.add(key(1000, 2, Interpolation::Linear));
    spline.add(key(1000, 9, Interpolation::Linear));
    assert_eq!(spline.len(), 4);
    assert_eq!(spline.get(0), Some(key(0, 1, Interpolation::Linear)));
    assert_eq!(spline.get(1), Some(key(1000, 2, Interpolation::Linear)));
    assert_eq!(spline.get(2), Some(key(1000, 9, Interpolation::Linear)));
    assert_eq!(spline.get(3), Some(key(2000, 3, Interpolation::Linear)));
}

#[test]
fn replace_returns_previous_key() {
    let mut spline = Spline::from_vec(vec![
        key(0, 1, Interpolation::Linear),
        key(1000, 2, Interpolation::Linear),
    ]);
    let prev = spline.replace(1, key(1000, 7, Interpolation::Step));
    assert_eq!(prev, Some(key(1000, 2, Interpolation::Linear)));
    assert_eq!(spline.get(1), Some(key(1000, 7, Interpolation::Step)));
    assert_eq!(spline.replace(2, key(3000, 0, Interpolation::Linear)), None);
    assert_eq!(spline.len(), 2);
}

#[test]
fn remove_returns_key_and_shifts() {
    let mut spline = Spline::from_vec(vec![
        key(0, 1, Interpolation::Linear),
        key(1000, 2, Interpolation::Linear),
        key(2000, 3, Interpolation::Linear),
    ]);
    assert_eq!(spline.remove(1), Some(key(1000, 2, Interpolation::Linear)));
    assert_eq!(spline.len(), 2);
    assert_eq!(spline.get(1), Some(key(2000, 3, Interpolation::Linear)));
    assert_eq!(spline.remove(2), None);
    assert_eq!(spline.len(), 2);
}

#[test]
fn iterator_yields_keys_in_order_and_is_restartable() {
    let spline = Spline::from_vec(vec![
        key(1000, 2, Interpolation::Linear),
        key(0, 1, Interpolation::Linear),
    ]);
    let mut it = spline.iter();
    assert_eq!(it.next(), Some(key(0, 1, Interpolation::Linear)));
    assert_eq!(it.next(), Some(key(1000, 2, Interpolation::Linear)));
    assert_eq!(it.next(), None);
    assert_eq!(it.next(), None);
    let mut again = spline.iter();
    assert_eq!(again.next(), Some(key(0, 1, Interpolation::Linear)));
}

#[test]
fn len_and_is_empty() {
    let empty = Spline::<Milli, Milli>::from_vec(vec![]);
    assert!(empty.is_empty());
    assert_eq!(empty.len(), 0);
    assert_eq!(empty.sample(m(0)), None);
    assert_eq!(empty.clamped_sample(m(0)), None);
    let one = Spline::from_vec(vec![key(0, 1, Interpolation::Linear)]);
    assert!(!one.is_empty());
    assert_eq!(one.len(), 1);
}

#[test]
fn milli_constructors() {
    assert_eq!(Milli::from_units(5), m(5000));
    assert_eq!(Milli::from_units(-2), m(-2000));
    assert_eq!(Milli::new(250).raw, 250);
    assert_eq!(Interpolation::<Milli>::default(), Interpolation::Linear);
}
