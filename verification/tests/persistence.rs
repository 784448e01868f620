use splines::codec;
use splines::Interpolation;
use splines::Key;
use splines::Milli;
use splines::Spline;

fn m(raw: i64) -> Milli {
    Milli::new(raw)
}

fn key(c: i64, v: i64, mode: Interpolation<Milli>) -> Key<Milli, Milli> {
    Key::new(m(c), m(v), mode)
}

#[test]
fn round_trip_reproduces_samples() {
    let spline = Spline::from_vec(vec![
        key(0, 100, Interpolation::Step),
        key(1000, 200, Interpolation::Linear),
        key(2000, 300, Interpolation::Cosine),
        key(3000, 400, Interpolation::CatmullRom),
        key(4000, 500, Interpolation::Bezier(m(9000))),
        key(5000, 600, Interpolation::StrokeBezier(m(1000), m(8000))),
        key(6000, 700, Interpolation::Linear),
    ]);
    let stream = codec::encode(&spline);
    let back = codec::decode(&stream).unwrap();
    assert_eq!(back.len(), spline.len());
    for i in 0..spline.len() {
        assert_eq!(back.get(i), spline.get(i));
    }
    let coordinates = [
        -500, 0, 250, 500, 1000, 1500, 2000, 2500, 3500, 4000, 4750, 5500, 6000, 9000,
    ];
    for x in coordinates {
        assert_eq!(back.sample(m(x)), spline.sample(m(x)));
        assert_eq!(back.clamped_sample(m(x)), spline.clamped_sample(m(x)));
    }
}

#[test]
fn decode_rejects_malformed_streams() {
    assert!(codec::decode(&vec![1, 2, 3]).is_none());
    assert!(codec::decode(&vec![0, 0, 9, 0, 0]).is_none());
    assert!(codec::decode(&vec![0, 0, -1, 0, 0]).is_none());
    let empty = codec::decode(&vec![]).unwrap();
    assert_eq!(empty.len(), 0);
}
