//! Structural persistence of fixed-point splines.
//!
//! A spline over [`Milli`] is flattened into a stream of `i64` records, five
//! fields per key: coordinate, value, a mode tag, and the two auxiliary
//! control values (zero where the mode carries none). Decoding rebuilds the
//! spline through the sorting constructor, so a round trip reproduces the key
//! sequence of a sorted spline exactly, and with it every sample result.

use crate::fixed::Milli;
use crate::interpolate::Coordinate;
use crate::interpolate::Interpolate;
use crate::interpolation::Interpolation;
use crate::key::Key;
use crate::spline::sorted;
use crate::spline::stable_sorted;
use crate::spline::Spline;
use vstd::prelude::*;

verus! {

/// The tag and auxiliary fields of a mode.
pub open spec fn mode_fields(mode: Interpolation<Milli>) -> Seq<i64> {
    match mode {
        Interpolation::Step => seq![0i64, 0i64, 0i64],
        Interpolation::Linear => seq![1i64, 0i64, 0i64],
        Interpolation::Cosine => seq![2i64, 0i64, 0i64],
        Interpolation::CatmullRom => seq![3i64, 0i64, 0i64],
        Interpolation::Bezier(u) => seq![4i64, u.raw, 0i64],
        Interpolation::StrokeBezier(u, w) => seq![5i64, u.raw, w.raw],
    }
}

/// The five fields of one key.
pub open spec fn key_fields(k: Key<Milli, Milli>) -> Seq<i64> {
    seq![k.coordinate.raw, k.value.raw] + mode_fields(k.mode)
}

/// The stream that encodes a key sequence.
pub open spec fn encoded(s: Seq<Key<Milli, Milli>>) -> Seq<i64>
    decreases s.len(),
{
    if s.len() == 0 {
        Seq::<i64>::empty()
    } else {
        encoded(s.drop_last()) + key_fields(s.last())
    }
}

/// The mode a tag and the auxiliary fields stand for.
pub open spec fn mode_of(tag: i64, a0: i64, a1: i64) -> Interpolation<Milli> {
    if tag == 0 {
        Interpolation::Step
    } else if tag == 1 {
        Interpolation::Linear
    } else if tag == 2 {
        Interpolation::Cosine
    } else if tag == 3 {
        Interpolation::CatmullRom
    } else if tag == 4 {
        Interpolation::Bezier(Milli { raw: a0 })
    } else {
        Interpolation::StrokeBezier(Milli { raw: a0 }, Milli { raw: a1 })
    }
}

/// The key one record stands for.
pub open spec fn key_of(c: i64, v: i64, tag: i64, a0: i64, a1: i64) -> Key<Milli, Milli> {
    Key { coordinate: Milli { raw: c }, value: Milli { raw: v }, mode: mode_of(tag, a0, a1) }
}

/// The key sequence a stream stands for, read record by record.
pub open spec fn keys_of(st: Seq<i64>) -> Seq<Key<Milli, Milli>>
    decreases st.len(),
{
    if st.len() < 5 {
        Seq::<Key<Milli, Milli>>::empty()
    } else {
        let n = st.len();
        keys_of(st.take(n - 5)).push(key_of(st[n - 5], st[n - 4], st[n - 3], st[n - 2], st[n - 1]))
    }
}

/// A stream decodes when it holds whole records with known mode tags.
pub open spec fn valid_stream(st: Seq<i64>) -> bool {
    st.len() % 5 == 0 && forall|r: int| 0 <= r < st.len() / 5 ==> 0 <= #[trigger] st[5 * r + 2] <= 5
}

/// Encoding yields a decodable stream that stands for exactly the keys it
/// was built from: the structural round trip loses nothing.
pub proof fn lemma_round_trip(s: Seq<Key<Milli, Milli>>)
    ensures
        encoded(s).len() == 5 * s.len(),
        valid_stream(encoded(s)),
        keys_of(encoded(s)) == s,
    decreases s.len(),
{
    if s.len() == 0 {
    } else {
        let dl = s.drop_last();
        lemma_round_trip(dl);
        let st = encoded(s);
        let prev = encoded(dl);
        assert(st.len() == prev.len() + 5);
        assert(st.take(st.len() - 5) =~= prev);
        assert forall|r: int| 0 <= r < st.len() / 5 implies 0 <= #[trigger] st[5 * r + 2] <= 5 by {
            if r < prev.len() / 5 {
                assert(st[5 * r + 2] == prev[5 * r + 2]);
            } else {
                assert(5 * r + 2 == prev.len() + 2) by (nonlinear_arith)
                    requires
                        r == prev.len() / 5,
                        prev.len() % 5 == 0,
                ;
                assert(st[prev.len() as int + 2] == key_fields(s.last())[2]);
            }
        }
        assert(st[st.len() - 5] == key_fields(s.last())[0]);
        assert(st[st.len() - 4] == key_fields(s.last())[1]);
        assert(st[st.len() - 3] == key_fields(s.last())[2]);
        assert(st[st.len() - 2] == key_fields(s.last())[3]);
        assert(st[st.len() - 1] == key_fields(s.last())[4]);
        assert(key_of(
            key_fields(s.last())[0],
            key_fields(s.last())[1],
            key_fields(s.last())[2],
            key_fields(s.last())[3],
            key_fields(s.last())[4],
        ) == s.last());
        assert(keys_of(st) =~= s);
    }
}

/// Flattens a spline's keys into a record stream.
pub fn encode(spline: &Spline<Milli, Milli>) -> (out: Vec<i64>)
    ensures
        out@ == encoded(spline.key_seq()),
{
    let ghost s = spline.key_seq();
    let mut out: Vec<i64> = Vec::new();
    assert(s.take(0) =~= Seq::<Key<Milli, Milli>>::empty());
    let n = spline.len();
    let mut i: usize = 0;
    while i < n
        invariant
            i <= n,
            n == s.len(),
            s == spline.key_seq(),
            out@ == encoded(s.take(i as int)),
        decreases n - i,
    {
        let k = spline.get(i).unwrap();
        out.push(k.coordinate.raw);
        out.push(k.value.raw);
        match k.mode {
            Interpolation::Step => {
                out.push(0);
                out.push(0);
                out.push(0);
            },
            Interpolation::Linear => {
                out.push(1);
                out.push(0);
                out.push(0);
            },
            Interpolation::Cosine => {
                out.push(2);
                out.push(0);
                out.push(0);
            },
            Interpolation::CatmullRom => {
                out.push(3);
                out.push(0);
                out.push(0);
            },
            Interpolation::Bezier(u) => {
                out.push(4);
                out.push(u.raw);
                out.push(0);
            },
            Interpolation::StrokeBezier(u, w) => {
                out.push(5);
                out.push(u.raw);
                out.push(w.raw);
            },
        }
        proof {
            assert(s.take(i + 1).drop_last() =~= s.take(i as int));
            assert(s.take(i + 1).last() == s[i as int]);
            assert(out@ =~= encoded(s.take(i as int)) + key_fields(s[i as int]));
        }
        i += 1;
    }
    proof {
        assert(s.take(n as int) =~= s);
    }
    out
}

/// Rebuilds a spline from a record stream through the sorting constructor,
/// or signals a stream that holds no whole records with known mode tags.
pub fn decode(stream: &Vec<i64>) -> (r: Option<Spline<Milli, Milli>>)
    ensures
        valid_stream(stream@) ==> (r matches Some(sp) && sp.key_seq() == stable_sorted(
            keys_of(stream@),
        ) && sp.is_sorted()),
        !valid_stream(stream@) ==> r is None,
{
    let ghost st = stream@;
    let n = stream.len();
    if n % 5 != 0 {
        return None;
    }
    let count = n / 5;
    let mut keys: Vec<Key<Milli, Milli>> = Vec::new();
    assert(st.take(0) =~= Seq::<i64>::empty());
    let mut i: usize = 0;
    while i < count
        invariant
            i <= count,
            count == n / 5,
            n % 5 == 0,
            n == st.len(),
            st == stream@,
            keys@ == keys_of(st.take(5 * i as int)),
            forall|r: int| 0 <= r < i ==> 0 <= #[trigger] st[5 * r + 2] <= 5,
        decreases count - i,
    {
        proof {
            assert(5 * (i + 1) <= n) by (nonlinear_arith)
                requires
                    i < count,
                    count == n / 5,
                    n % 5 == 0,
            ;
        }
        let base = 5 * i;
        let c = stream[base];
        let v = stream[base + 1];
        let tag = stream[base + 2];
        let a0 = stream[base + 3];
        let a1 = stream[base + 4];
        if tag < 0 || tag > 5 {
            return None;
        }
        let mode = if tag == 0 {
            Interpolation::Step
        } else if tag == 1 {
            Interpolation::Linear
        } else if tag == 2 {
            Interpolation::Cosine
        } else if tag == 3 {
            Interpolation::CatmullRom
        } else if tag == 4 {
            Interpolation::Bezier(Milli { raw: a0 })
        } else {
            Interpolation::StrokeBezier(Milli { raw: a0 }, Milli { raw: a1 })
        };
        keys.push(Key { coordinate: Milli { raw: c }, value: Milli { raw: v }, mode });
        proof {
            let stp = st.take(5 * (i + 1));
            assert(stp.take(stp.len() - 5) =~= st.take(5 * i as int));
            assert(keys@ =~= keys_of(st.take(5 * i as int)).push(
                key_of(st[5 * i as int], st[5 * i as int + 1], st[5 * i as int + 2], st[5 * i as int + 3], st[5 * i as int + 4]),
            ));
        }
        i += 1;
    }
    proof {
        assert(st.take(5 * count as int) =~= st);
    }
    Some(Spline::from_vec(keys))
}

/// A decoded stream samples exactly as the sorted spline it encodes: the
/// round trip reproduces every sample result.
pub proof fn lemma_round_trip_preserves_keys(s: Seq<Key<Milli, Milli>>)
    requires
        sorted(s),
    ensures
        valid_stream(encoded(s)),
        stable_sorted(keys_of(encoded(s))) == s,
{
    lemma_round_trip(s);
    lemma_stable_sorted_of_sorted(s);
}

/// Bringing an already sorted key sequence into order changes nothing: the
/// sorting constructor keeps sorted input as it is.
pub proof fn lemma_stable_sorted_of_sorted<T: Coordinate, V: Interpolate<T>>(s: Seq<Key<T, V>>)
    requires
        sorted(s),
    ensures
        stable_sorted(s) == s,
    decreases s.len(),
{
    if s.len() == 0 {
        assert(stable_sorted(s) =~= s);
    } else {
        let dl = s.drop_last();
        assert(forall|i: int, j: int|
            0 <= i <= j < dl.len() ==> #[trigger] dl[i].coordinate.le_spec(dl[j].coordinate)) by {
            assert(forall|i: int, j: int| 0 <= i <= j < dl.len() ==> dl[i] == s[i] && dl[j] == s[j]);
        }
        lemma_stable_sorted_of_sorted(dl);
        if dl.len() == 0 {
            assert(stable_sorted(s) =~= s);
        } else {
            assert(dl.last() == s[s.len() - 2]);
            assert(dl.last().coordinate.le_spec(s.last().coordinate));
            assert(dl.push(s.last()) =~= s);
        }
    }
}

} // verus!
